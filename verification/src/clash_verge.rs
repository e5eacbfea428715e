//! The Clash Verge profile enhancement for the daemon's strategy groups:
//! which groups and rules files to write, how the managed groups are merged
//! into a file's appended groups, and which routing rules are written.

use vstd::prelude::*;
use crate::config::{Config, GroupConfig};
use crate::text::{str_equals, strings_equal, to_owned_string, trim_seq, trim_string};

verus! {

/// A proxy group entry of a groups enhancement file.
#[derive(Debug, Clone)]
pub struct GroupEntry {
    pub name: String,
    pub group_type: String,
    pub proxies: Option<Vec<String>>,
    pub include_all: Option<bool>,
}

pub struct GroupEntryView {
    pub name: Seq<char>,
    pub group_type: Seq<char>,
    pub proxies: Option<Seq<Seq<char>>>,
    pub include_all: Option<bool>,
}

pub open spec fn names_view(s: Seq<String>) -> Seq<Seq<char>> {
    s.map_values(|x: String| x@)
}

impl View for GroupEntry {
    type V = GroupEntryView;

    open spec fn view(&self) -> GroupEntryView {
        GroupEntryView {
            name: self.name@,
            group_type: self.group_type@,
            proxies: match self.proxies {
                Some(p) => Some(names_view(p@)),
                None => None,
            },
            include_all: self.include_all,
        }
    }
}

pub open spec fn entries_view(s: Seq<GroupEntry>) -> Seq<GroupEntryView> {
    s.map_values(|e: GroupEntry| e@)
}

pub open spec fn select_all(name: Seq<char>) -> GroupEntryView {
    GroupEntryView { name, group_type: "select"@, proxies: None, include_all: Some(true) }
}

/// The managed groups: `RW_CN_DIRECT` selecting `DIRECT`, then the strategy
/// groups `RW_GOOGLE`, `RW_BINANCE`, `RW_OPENAI`, `RW_GITHUB` and
/// `RW_GLOBAL`, and the probe group `RW_PROBE`, each a select group over all
/// proxies.
pub open spec fn spec_desired_groups() -> Seq<GroupEntryView> {
    seq![
        GroupEntryView {
            name: "RW_CN_DIRECT"@,
            group_type: "select"@,
            proxies: Some(seq!["DIRECT"@]),
            include_all: None,
        },
        select_all("RW_GOOGLE"@),
        select_all("RW_BINANCE"@),
        select_all("RW_OPENAI"@),
        select_all("RW_GITHUB"@),
        select_all("RW_GLOBAL"@),
        select_all("RW_PROBE"@),
    ]
}

fn select_all_entry(name: &str) -> (r: GroupEntry)
    ensures
        r@ == select_all(name@),
{
    GroupEntry {
        name: to_owned_string(name),
        group_type: to_owned_string("select"),
        proxies: None,
        include_all: Some(true),
    }
}

pub fn desired_groups() -> (r: Vec<GroupEntry>)
    ensures
        entries_view(r@) == spec_desired_groups(),
{
    let mut direct: Vec<String> = Vec::new();
    direct.push(to_owned_string("DIRECT"));
    assert(names_view(direct@) =~= seq!["DIRECT"@]);
    let mut v: Vec<GroupEntry> = Vec::new();
    v.push(GroupEntry {
        name: to_owned_string("RW_CN_DIRECT"),
        group_type: to_owned_string("select"),
        proxies: Some(direct),
        include_all: None,
    });
    v.push(select_all_entry("RW_GOOGLE"));
    v.push(select_all_entry("RW_BINANCE"));
    v.push(select_all_entry("RW_OPENAI"));
    v.push(select_all_entry("RW_GITHUB"));
    v.push(select_all_entry("RW_GLOBAL"));
    v.push(select_all_entry("RW_PROBE"));
    assert(entries_view(v@) =~= spec_desired_groups());
    v
}

/// The position of the first entry named `name`.
pub open spec fn first_named(s: Seq<GroupEntryView>, name: Seq<char>) -> Option<int>
    decreases s.len(),
{
    if s.len() == 0 {
        None
    } else if s[0].name == name {
        Some(0)
    } else {
        match first_named(s.drop_first(), name) {
            Some(i) => Some(i + 1),
            None => None,
        }
    }
}

/// `s` with its first entry named like `d` replaced by `d`, or with `d`
/// appended when none is.
pub open spec fn upsert(s: Seq<GroupEntryView>, d: GroupEntryView) -> Seq<GroupEntryView> {
    match first_named(s, d.name) {
        Some(i) => s.update(i, d),
        None => s.push(d),
    }
}

/// `s` after upserting every entry of `ds` in order.
pub open spec fn upsert_all(s: Seq<GroupEntryView>, ds: Seq<GroupEntryView>) -> Seq<GroupEntryView>
    decreases ds.len(),
{
    if ds.len() == 0 {
        s
    } else {
        upsert(upsert_all(s, ds.drop_last()), ds.last())
    }
}

proof fn lemma_first_named(s: Seq<GroupEntryView>, name: Seq<char>)
    ensures
        match first_named(s, name) {
            Some(i) => 0 <= i < s.len() && s[i].name == name
                && forall|j: int| 0 <= j < i ==> s[j].name != name,
            None => forall|j: int| 0 <= j < s.len() ==> s[j].name != name,
        },
    decreases s.len(),
{
    if s.len() > 0 {
        lemma_first_named(s.drop_first(), name);
        assert forall|j: int| 1 <= j < s.len() implies s[j] == s.drop_first()[j - 1] by {}
    }
}

proof fn lemma_upsert_same(s: Seq<GroupEntryView>, d: GroupEntryView)
    ensures
        first_named(upsert(s, d), d.name) matches Some(i) && upsert(s, d)[i] == d,
{
    let t = upsert(s, d);
    lemma_first_named(s, d.name);
    lemma_first_named(t, d.name);
    match first_named(s, d.name) {
        Some(i) => {
            assert(t[i].name == d.name);
            if let Some(k) = first_named(t, d.name) {
                if k < i {
                    assert(t[k] == s[k]);
                }
                assert(k >= i);
            }
        },
        None => {
            let i = s.len() as int;
            assert(t[i] == d);
            if let Some(k) = first_named(t, d.name) {
                if k < i {
                    assert(t[k] == s[k]);
                }
            }
        },
    }
}

proof fn lemma_upsert_other(s: Seq<GroupEntryView>, d: GroupEntryView, n: Seq<char>)
    requires
        n != d.name,
    ensures
        first_named(upsert(s, d), n) == first_named(s, n),
        first_named(s, n) matches Some(i) ==> upsert(s, d)[i] == s[i],
{
    let t = upsert(s, d);
    lemma_first_named(s, d.name);
    lemma_first_named(s, n);
    lemma_first_named(t, n);
    assert(forall|j: int| 0 <= j < s.len() ==> #[trigger] t[j].name == s[j].name);
    match first_named(s, n) {
        Some(i) => {
            assert(t[i] == s[i]);
            match first_named(t, n) {
                Some(k) => {
                    if k < i {
                        assert(t[k].name == s[k].name);
                    }
                    assert(k == i);
                },
                None => {
                    assert(t[i].name == n);
                },
            }
        },
        None => {
            if let Some(k) = first_named(t, n) {
                if k < s.len() {
                    assert(t[k].name == s[k].name);
                }
                assert(false);
            }
        },
    }
}

/// Every entry of `ds` is the first entry of its name in `t`.
pub open spec fn holds_all(t: Seq<GroupEntryView>, ds: Seq<GroupEntryView>) -> bool {
    forall|k: int| 0 <= k < ds.len() ==>
        (first_named(t, #[trigger] ds[k].name) matches Some(i) && t[i] == ds[k])
}

proof fn lemma_upsert_all_fixed(t: Seq<GroupEntryView>, ds: Seq<GroupEntryView>)
    requires
        holds_all(t, ds),
    ensures
        upsert_all(t, ds) == t,
    decreases ds.len(),
{
    if ds.len() > 0 {
        let rest = ds.drop_last();
        assert forall|k: int| 0 <= k < rest.len() implies
            (first_named(t, #[trigger] rest[k].name) matches Some(i) && t[i] == rest[k]) by {
            assert(rest[k] == ds[k]);
        }
        lemma_upsert_all_fixed(t, rest);
        let d = ds.last();
        let last = ds.len() - 1;
        assert(ds[last] == d);
        assert(first_named(t, ds[last].name) matches Some(i) && t[i] == ds[last]);
        lemma_first_named(t, d.name);
        if let Some(i) = first_named(t, d.name) {
            assert(t[i] == d);
            assert(t.update(i, d) =~= t);
        }
    }
}

proof fn lemma_upsert_all_holds(s: Seq<GroupEntryView>, ds: Seq<GroupEntryView>)
    requires
        forall|a: int, b: int| 0 <= a < b < ds.len() ==> ds[a].name != ds[b].name,
    ensures
        holds_all(upsert_all(s, ds), ds),
    decreases ds.len(),
{
    if ds.len() > 0 {
        let rest = ds.drop_last();
        let d = ds.last();
        let u = upsert_all(s, rest);
        lemma_upsert_all_holds(s, rest);
        lemma_upsert_same(u, d);
        assert forall|k: int| 0 <= k < ds.len() implies
            (first_named(upsert(u, d), #[trigger] ds[k].name) matches Some(i) && upsert(u, d)[i] == ds[k]) by {
            if k < ds.len() - 1 {
                assert(ds[k] == rest[k]);
                assert(first_named(u, rest[k].name) matches Some(i) && u[i] == rest[k]);
                lemma_upsert_other(u, d, ds[k].name);
            }
        }
    }
}

fn upsert_exec(list: &mut Vec<GroupEntry>, d: GroupEntry)
    ensures
        entries_view(final(list)@) == upsert(entries_view(old(list)@), d@),
{
    let ghost sv = entries_view(list@);
    proof {
        lemma_first_named(sv, d@.name);
    }
    let mut i: usize = 0;
    while i < list.len()
        invariant
            sv == entries_view(list@),
            list@ == old(list)@,
            i <= list@.len(),
            forall|j: int| 0 <= j < i ==> list@[j].name@ != d.name@,
        decreases list@.len() - i,
    {
        if strings_equal(&list[i].name, &d.name) {
            assert(first_named(sv, d@.name) == Some(i as int)) by {
                lemma_first_named(sv, d@.name);
                if let Some(k) = first_named(sv, d@.name) {
                    assert(k >= i);
                    if k > i {
                        assert(sv[i as int].name == d@.name);
                    }
                }
            }
            let ghost dv = d@;
            assert(upsert(sv, dv) == sv.update(i as int, dv));
            list.set(i, d);
            assert(entries_view(list@) =~= sv.update(i as int, dv));
            return;
        }
        i = i + 1;
    }
    assert(first_named(sv, d@.name) is None) by {
        if let Some(k) = first_named(sv, d@.name) {
            assert(sv[k].name == d@.name);
        }
    }
    let ghost before = list@;
    list.push(d);
    assert(entries_view(list@) =~= sv.push(d@));
}

fn clone_names(v: &Vec<String>) -> (r: Vec<String>)
    ensures
        names_view(r@) == names_view(v@),
{
    let mut out: Vec<String> = Vec::new();
    let mut i: usize = 0;
    while i < v.len()
        invariant
            i <= v@.len(),
            names_view(out@) =~= names_view(v@.take(i as int)),
        decreases v@.len() - i,
    {
        let ghost before = out@;
        out.push(v[i].clone());
        assert(names_view(out@) =~= names_view(before).push(v@[i as int]@));
        assert(v@.take(i + 1) =~= v@.take(i as int).push(v@[i as int]));
        assert(names_view(v@.take(i + 1)) =~= names_view(v@.take(i as int)).push(v@[i as int]@));
        i = i + 1;
    }
    assert(v@.take(v@.len() as int) =~= v@);
    out
}

/// A copy of a group entry.
pub fn clone_entry(e: &GroupEntry) -> (r: GroupEntry)
    ensures
        r@ == e@,
{
    GroupEntry {
        name: e.name.clone(),
        group_type: e.group_type.clone(),
        proxies: match &e.proxies {
            Some(p) => Some(clone_names(p)),
            None => None,
        },
        include_all: e.include_all,
    }
}

/// The managed groups have distinct names.
proof fn lemma_desired_names_distinct()
    ensures
        forall|a: int, b: int| 0 <= a < b < spec_desired_groups().len()
            ==> spec_desired_groups()[a].name != spec_desired_groups()[b].name,
{
    let ds = spec_desired_groups();
    reveal_strlit("RW_CN_DIRECT");
    reveal_strlit("RW_GOOGLE");
    reveal_strlit("RW_BINANCE");
    reveal_strlit("RW_OPENAI");
    reveal_strlit("RW_GITHUB");
    reveal_strlit("RW_GLOBAL");
    reveal_strlit("RW_PROBE");
    assert forall|a: int, b: int| 0 <= a < b < ds.len() implies ds[a].name != ds[b].name by {
        assert(ds[a].name[3] != ds[b].name[3] || ds[a].name.len() != ds[b].name.len()
            || ds[a].name[4] != ds[b].name[4]);
    }
}

proof fn lemma_upsert_keeps_others(s: Seq<GroupEntryView>, d: GroupEntryView)
    ensures
        upsert(s, d).len() >= s.len(),
        forall|k: int| 0 <= k < s.len() && s[k].name != d.name ==> (#[trigger] upsert(s, d)[k]) == s[k],
{
    lemma_first_named(s, d.name);
}

proof fn lemma_upsert_all_keeps_others(s: Seq<GroupEntryView>, ds: Seq<GroupEntryView>)
    ensures
        upsert_all(s, ds).len() >= s.len(),
        forall|k: int| 0 <= k < s.len() && (forall|m: int| 0 <= m < ds.len() ==> ds[m].name != s[k].name)
            ==> (#[trigger] upsert_all(s, ds)[k]) == s[k],
    decreases ds.len(),
{
    if ds.len() > 0 {
        let rest = ds.drop_last();
        lemma_upsert_all_keeps_others(s, rest);
        let u = upsert_all(s, rest);
        lemma_upsert_keeps_others(u, ds.last());
        assert forall|k: int| 0 <= k < s.len() && (forall|m: int| 0 <= m < ds.len() ==> ds[m].name != s[k].name)
            implies (#[trigger] upsert_all(s, ds)[k]) == s[k] by {
            assert forall|m: int| 0 <= m < rest.len() implies rest[m].name != s[k].name by {
                assert(rest[m] == ds[m]);
            }
            assert(ds[ds.len() - 1].name != s[k].name);
            assert(u[k] == s[k]);
        }
    }
}

/// Merging keeps the file's own groups: every group whose name is not a
/// managed one stays where it was, and every managed group is then in the
/// file, as the first group of its name.
pub proof fn law_merge_keeps_the_files_own_groups(append: Seq<GroupEntryView>)
    ensures
        upsert_all(append, spec_desired_groups()).len() >= append.len(),
        forall|k: int| 0 <= k < append.len()
            && (forall|m: int| 0 <= m < spec_desired_groups().len() ==> spec_desired_groups()[m].name != append[k].name)
            ==> (#[trigger] upsert_all(append, spec_desired_groups())[k]) == append[k],
        holds_all(upsert_all(append, spec_desired_groups()), spec_desired_groups()),
{
    let ds = spec_desired_groups();
    lemma_upsert_all_keeps_others(append, ds);
    lemma_desired_names_distinct();
    lemma_upsert_all_holds(append, ds);
}

/// Merging the managed groups into a file that was already merged changes
/// nothing: a second sync writes what the first one wrote.
pub proof fn law_merge_idempotent(append: Seq<GroupEntryView>)
    ensures
        upsert_all(upsert_all(append, spec_desired_groups()), spec_desired_groups())
            == upsert_all(append, spec_desired_groups()),
{
    let ds = spec_desired_groups();
    lemma_desired_names_distinct();
    lemma_upsert_all_holds(append, ds);
    lemma_upsert_all_fixed(upsert_all(append, ds), ds);
}

/// A file's appended groups with the managed groups merged in: an existing
/// group of the same name is replaced in place, a missing one is appended.
pub fn merge_desired_groups(append: Vec<GroupEntry>) -> (r: Vec<GroupEntry>)
    ensures
        entries_view(r@) == upsert_all(entries_view(append@), spec_desired_groups()),
{
    let desired = desired_groups();
    let mut out = append;
    let ghost start = entries_view(out@);
    let ghost ds = entries_view(desired@);
    let mut i: usize = 0;
    while i < desired.len()
        invariant
            i <= desired@.len(),
            ds == entries_view(desired@),
            ds == spec_desired_groups(),
            entries_view(out@) == upsert_all(start, ds.take(i as int)),
        decreases desired@.len() - i,
    {
        assert(ds.take(i + 1).drop_last() =~= ds.take(i as int));
        upsert_exec(&mut out, clone_entry(&desired[i]));
        i = i + 1;
    }
    assert(ds.take(desired@.len() as int) =~= ds);
    out
}

} // verus!

verus! {

// ---------------------------------------------------------------------
// Which groups files to write.

/// A profile entry of `profiles.yaml`, as far as the selection reads it.
#[derive(Debug, Clone)]
pub struct ProfileItem {
    pub uid: String,
    pub item_type: Option<String>,
    /// The name of its groups enhancement file.
    pub groups: Option<String>,
    /// The name of its rules enhancement file.
    pub rules: Option<String>,
}

/// `profiles.yaml`: the current profile's uid and the profile entries.
#[derive(Debug, Clone)]
pub struct ProfilesConfig {
    pub current: Option<String>,
    pub items: Vec<ProfileItem>,
}

/// Why no groups file could be chosen.
#[derive(Debug, Clone, PartialEq, Eq)]
pub enum ProfileError {
    /// `profiles.current` is not set.
    NoCurrentProfile,
    /// No profile has the current uid.
    CurrentProfileMissing { uid: String },
    /// The current profile names no groups file.
    CurrentProfileWithoutGroups,
    /// No groups file is left to write.
    NothingToWrite,
}

/// String order: code point by code point, a proper prefix first (the order
/// of their UTF-8 bytes).
pub open spec fn lex_lt(a: Seq<char>, b: Seq<char>) -> bool
    decreases a.len(),
{
    if a.len() == 0 {
        b.len() > 0
    } else if b.len() == 0 {
        false
    } else if a[0] != b[0] {
        (a[0] as u32) < (b[0] as u32)
    } else {
        lex_lt(a.drop_first(), b.drop_first())
    }
}

proof fn lemma_lex_trans(a: Seq<char>, b: Seq<char>, c: Seq<char>)
    requires
        lex_lt(a, b),
        lex_lt(b, c),
    ensures
        lex_lt(a, c),
    decreases a.len(),
{
    if a.len() > 0 && b.len() > 0 && c.len() > 0 && a[0] == b[0] && b[0] == c[0] {
        lemma_lex_trans(a.drop_first(), b.drop_first(), c.drop_first());
    }
}

proof fn lemma_lex_total(a: Seq<char>, b: Seq<char>)
    ensures
        lex_lt(a, b) || lex_lt(b, a) || a == b,
        !(lex_lt(a, b) && lex_lt(b, a)),
    decreases a.len(),
{
    if a.len() > 0 && b.len() > 0 {
        if a[0] == b[0] {
            lemma_lex_total(a.drop_first(), b.drop_first());
            if a.drop_first() == b.drop_first() {
                assert(a =~= seq![a[0]] + a.drop_first());
                assert(b =~= seq![b[0]] + b.drop_first());
            }
        } else {
            if (a[0] as u32) == (b[0] as u32) {
                vstd::utf8::char_u32_cast(a[0], a[0] as u32);
                vstd::utf8::char_u32_cast(b[0], b[0] as u32);
            }
        }
    } else if a.len() == 0 && b.len() == 0 {
        assert(a =~= b);
    }
}

fn lex_less(a: &str, b: &str) -> (r: bool)
    ensures
        r == lex_lt(a@, b@),
{
    let n = a.unicode_len();
    let m = b.unicode_len();
    let mut i: usize = 0;
    assert(a@.skip(0) =~= a@);
    assert(b@.skip(0) =~= b@);
    while i < n && i < m
        invariant
            n == a@.len(),
            m == b@.len(),
            i <= n,
            i <= m,
            lex_lt(a@, b@) == lex_lt(a@.skip(i as int), b@.skip(i as int)),
        decreases n - i,
    {
        let x = a.get_char(i);
        let y = b.get_char(i);
        if x != y {
            return (x as u32) < (y as u32);
        }
        assert(a@.skip(i as int).drop_first() =~= a@.skip(i + 1));
        assert(b@.skip(i as int).drop_first() =~= b@.skip(i + 1));
        i = i + 1;
    }
    i == n && i < m
}

pub open spec fn strictly_ascending(s: Seq<String>) -> bool {
    forall|i: int, j: int| 0 <= i < j < s.len() ==> lex_lt(s[i]@, s[j]@)
}

pub open spec fn names_set(s: Seq<String>) -> Set<Seq<char>> {
    Set::new(|n: Seq<char>| exists|i: int| 0 <= i < s.len() && s[i]@ == n)
}

/// Adds `x` to a strictly ascending list of names unless it is there.
fn insert_name(v: &mut Vec<String>, x: String)
    requires
        strictly_ascending(old(v)@),
    ensures
        strictly_ascending(final(v)@),
        names_set(final(v)@) == names_set(old(v)@).insert(x@),
{
    let ghost s = v@;
    let mut j: usize = 0;
    while j < v.len() && lex_less(v[j].as_str(), x.as_str())
        invariant
            v@ == s,
            strictly_ascending(s),
            j <= s.len(),
            forall|k: int| 0 <= k < j ==> lex_lt(s[k]@, x@),
        decreases s.len() - j,
    {
        j = j + 1;
    }
    if j < v.len() && strings_equal(&v[j], &x) {
        assert(names_set(s) =~= names_set(s).insert(x@)) by {
            assert(s[j as int]@ == x@);
        }
        return;
    }
    proof {
        if j < s.len() {
            lemma_lex_total(s[j as int]@, x@);
        }
    }
    v.insert(j, x);
    let ghost t = v@;
    assert(t =~= s.insert(j as int, t[j as int]));
    assert forall|a: int, b: int| 0 <= a < b < t.len() implies lex_lt(t[a]@, t[b]@) by {
        if b < j {
            assert(t[a] == s[a] && t[b] == s[b]);
        } else if b == j {
            assert(t[a] == s[a]);
        } else if a < j {
            assert(t[a] == s[a] && t[b] == s[b - 1]);
            assert(lex_lt(x@, s[j as int]@));
            if b - 1 > j {
                lemma_lex_trans(x@, s[j as int]@, s[b - 1]@);
            }
            lemma_lex_trans(s[a]@, x@, s[b - 1]@);
        } else if a == j {
            assert(t[b] == s[b - 1]);
            assert(lex_lt(x@, s[j as int]@));
            if b - 1 > j {
                lemma_lex_trans(x@, s[j as int]@, s[b - 1]@);
            }
        } else {
            assert(t[a] == s[a - 1] && t[b] == s[b - 1]);
        }
    }
    assert(names_set(t) =~= names_set(s).insert(x@)) by {
        assert forall|n: Seq<char>| names_set(t).contains(n) implies names_set(s).insert(x@).contains(n) by {
            let k = choose|k: int| 0 <= k < t.len() && t[k]@ == n;
            if k < j {
                assert(t[k] == s[k]);
            } else if k > j {
                assert(t[k] == s[k - 1]);
            }
        }
        assert forall|n: Seq<char>| names_set(s).insert(x@).contains(n) implies names_set(t).contains(n) by {
            if n == x@ {
                assert(t[j as int]@ == n);
            } else {
                let k = choose|k: int| 0 <= k < s.len() && s[k]@ == n;
                if k < j {
                    assert(t[k] == s[k]);
                } else {
                    assert(t[k + 1] == s[k]);
                }
            }
        }
    }
}

pub open spec fn is_remote(item: ProfileItem) -> bool {
    item.item_type matches Some(t) && t@ == "remote"@
}

/// The name of a profile's rules file (`rules`) or groups file.
pub open spec fn profile_file(item: ProfileItem, rules: bool) -> Option<String> {
    if rules { item.rules } else { item.groups }
}

/// The rules files (`rules`) or groups files of every remote profile that
/// names one.
pub open spec fn remote_files(items: Seq<ProfileItem>, rules: bool) -> Set<Seq<char>> {
    Set::new(|n: Seq<char>| exists|i: int| 0 <= i < items.len() && is_remote(items[i])
        && (profile_file(items[i], rules) matches Some(g) && g@ == n))
}

/// The groups files of every remote profile that names one.
pub open spec fn remote_groups(items: Seq<ProfileItem>) -> Set<Seq<char>> {
    remote_files(items, false)
}

/// The first profile with the given uid.
pub open spec fn find_profile(items: Seq<ProfileItem>, uid: Seq<char>) -> Option<ProfileItem>
    decreases items.len(),
{
    if items.len() == 0 {
        None
    } else if items[0].uid@ == uid {
        Some(items[0])
    } else {
        find_profile(items.drop_first(), uid)
    }
}

/// The groups files to write, as a set of names: every remote profile's
/// when `sync_all`, else the current profile's.
pub open spec fn spec_selected_groups(profiles: ProfilesConfig, sync_all: bool) -> Result<Set<Seq<char>>, ProfileError> {
    if sync_all {
        Ok(remote_groups(profiles.items@))
    } else {
        match profiles.current {
            None => Err(ProfileError::NoCurrentProfile),
            Some(uid) => match find_profile(profiles.items@, uid@) {
                None => Err(ProfileError::CurrentProfileMissing { uid }),
                Some(item) => match item.groups {
                    None => Err(ProfileError::CurrentProfileWithoutGroups),
                    Some(g) => Ok(set![g@]),
                },
            },
        }
    }
}

/// The rules files to write, as a set of names: every remote profile's
/// when `sync_all`, else the current profile's, if it names one.
pub open spec fn spec_selected_rules(profiles: ProfilesConfig, sync_all: bool) -> Set<Seq<char>> {
    if sync_all {
        remote_files(profiles.items@, true)
    } else {
        match profiles.current {
            Some(uid) => match find_profile(profiles.items@, uid@) {
                Some(item) => match item.rules {
                    Some(r) => set![r@],
                    None => Set::empty(),
                },
                None => Set::empty(),
            },
            None => Set::empty(),
        }
    }
}

fn file_of(item: &ProfileItem, rules: bool) -> (r: &Option<String>)
    ensures
        *r == profile_file(*item, rules),
{
    if rules { &item.rules } else { &item.groups }
}

/// The rules files (`rules`) or groups files of every remote profile,
/// without repeats and in ascending order.
fn collect_remote(items: &Vec<ProfileItem>, rules: bool) -> (names: Vec<String>)
    ensures
        strictly_ascending(names@),
        names_set(names@) == remote_files(items@, rules),
{
    let mut names: Vec<String> = Vec::new();
    assert(names_set(names@) =~= Set::empty());
    let mut i: usize = 0;
    while i < items.len()
        invariant
            i <= items@.len(),
            strictly_ascending(names@),
            names_set(names@) == remote_files(items@.take(i as int), rules),
        decreases items@.len() - i,
    {
        let item = &items[i];
        let remote = match &item.item_type {
            Some(t) => str_equals(t.as_str(), "remote"),
            None => false,
        };
        let ghost before = items@.take(i as int);
        let ghost after = items@.take(i + 1);
        let file = file_of(item, rules);
        if remote {
            if let Some(g) = file {
                insert_name(&mut names, g.clone());
                assert(remote_files(after, rules) =~= remote_files(before, rules).insert(g@)) by {
                    assert(after[i as int] == *item);
                    assert forall|n: Seq<char>| remote_files(after, rules).contains(n) implies remote_files(before, rules).insert(g@).contains(n) by {
                        let k = choose|k: int| 0 <= k < after.len() && is_remote(after[k]) && (profile_file(after[k], rules) matches Some(h) && h@ == n);
                        if k < i {
                            assert(after[k] == before[k]);
                        }
                    }
                    assert forall|n: Seq<char>| remote_files(before, rules).insert(g@).contains(n) implies remote_files(after, rules).contains(n) by {
                        if n != g@ {
                            let k = choose|k: int| 0 <= k < before.len() && is_remote(before[k]) && (profile_file(before[k], rules) matches Some(h) && h@ == n);
                            assert(after[k] == before[k]);
                        }
                    }
                }
            } else {
                assert(remote_files(after, rules) =~= remote_files(before, rules)) by {
                    assert forall|n: Seq<char>| remote_files(after, rules).contains(n) implies remote_files(before, rules).contains(n) by {
                        let k = choose|k: int| 0 <= k < after.len() && is_remote(after[k]) && (profile_file(after[k], rules) matches Some(h) && h@ == n);
                        assert(k != i);
                        assert(after[k] == before[k]);
                    }
                    assert forall|n: Seq<char>| remote_files(before, rules).contains(n) implies remote_files(after, rules).contains(n) by {
                        let k = choose|k: int| 0 <= k < before.len() && is_remote(before[k]) && (profile_file(before[k], rules) matches Some(h) && h@ == n);
                        assert(after[k] == before[k]);
                    }
                }
            }
        } else {
            assert(remote_files(after, rules) =~= remote_files(before, rules)) by {
                assert forall|n: Seq<char>| remote_files(after, rules).contains(n) implies remote_files(before, rules).contains(n) by {
                    let k = choose|k: int| 0 <= k < after.len() && is_remote(after[k]) && (profile_file(after[k], rules) matches Some(h) && h@ == n);
                    if k == i {
                        reveal_strlit("remote");
                        assert(false);
                    }
                    assert(after[k] == before[k]);
                }
                assert forall|n: Seq<char>| remote_files(before, rules).contains(n) implies remote_files(after, rules).contains(n) by {
                    let k = choose|k: int| 0 <= k < before.len() && is_remote(before[k]) && (profile_file(before[k], rules) matches Some(h) && h@ == n);
                    assert(after[k] == before[k]);
                }
            }
        }
        i = i + 1;
    }
    assert(items@.take(items@.len() as int) =~= items@);
    names
}

/// The position of the first profile with the given uid.
fn find_profile_index(items: &Vec<ProfileItem>, uid: &String) -> (r: Option<usize>)
    ensures
        match r {
            Some(i) => i < items@.len() && find_profile(items@, uid@) == Some(items@[i as int]),
            None => find_profile(items@, uid@) is None,
        },
{
    let mut i: usize = 0;
    assert(items@.skip(0) =~= items@);
    while i < items.len()
        invariant
            i <= items@.len(),
            find_profile(items@, uid@) == find_profile(items@.skip(i as int), uid@),
        decreases items@.len() - i,
    {
        assert(items@.skip(i as int).drop_first() =~= items@.skip(i + 1));
        if strings_equal(&items[i].uid, uid) {
            assert(items@.skip(i as int)[0] == items@[i as int]);
            return Some(i);
        }
        i = i + 1;
    }
    None
}

/// The names of the groups files to write, without repeats and in
/// ascending order.
pub fn select_groups_files(profiles: &ProfilesConfig, sync_all: bool) -> (r: Result<Vec<String>, ProfileError>)
    ensures
        match (r, spec_selected_groups(*profiles, sync_all)) {
            (Ok(v), Ok(set)) => strictly_ascending(v@) && names_set(v@) == set,
            (Err(e), Err(f)) => e == f,
            _ => false,
        },
{
    if sync_all {
        return Ok(collect_remote(&profiles.items, false));
    }
    let current = match &profiles.current {
        None => {
            return Err(ProfileError::NoCurrentProfile);
        },
        Some(c) => c,
    };
    match find_profile_index(&profiles.items, current) {
        None => Err(ProfileError::CurrentProfileMissing { uid: current.clone() }),
        Some(i) => match &profiles.items[i].groups {
            None => Err(ProfileError::CurrentProfileWithoutGroups),
            Some(g) => {
                let mut names: Vec<String> = Vec::new();
                names.push(g.clone());
                assert(names_set(names@) =~= set![g@]) by {
                    assert(names@[0]@ == g@);
                }
                Ok(names)
            },
        },
    }
}

/// The names of the rules files to write, without repeats and in
/// ascending order.
pub fn select_rules_files(profiles: &ProfilesConfig, sync_all: bool) -> (r: Vec<String>)
    ensures
        strictly_ascending(r@),
        names_set(r@) == spec_selected_rules(*profiles, sync_all),
{
    let mut names: Vec<String> = Vec::new();
    assert(names_set(names@) =~= Set::empty());
    if sync_all {
        return collect_remote(&profiles.items, true);
    }
    if let Some(current) = &profiles.current {
        if let Some(i) = find_profile_index(&profiles.items, current) {
            if let Some(rl) = &profiles.items[i].rules {
                names.push(rl.clone());
                assert(names_set(names@) =~= set![rl@]) by {
                    assert(names@[0]@ == rl@);
                }
            }
        }
    }
    names
}

/// The file name of a groups file: its name and `.yaml`.
pub fn groups_file_name(name: &String) -> (r: String)
    ensures
        r@ == name@ + ".yaml"@,
{
    let mut s = name.clone();
    s.append(".yaml");
    s
}

/// `files` are `names`, each with `.yaml`.
pub open spec fn yaml_names(names: Seq<String>, files: Seq<String>) -> bool {
    &&& files.len() == names.len()
    &&& forall|k: int| 0 <= k < names.len() ==> (#[trigger] files[k])@ == names[k]@ + ".yaml"@
}

/// `files` are the file names of the names in `set`, in ascending order
/// of name.
pub open spec fn lists_files(set: Set<Seq<char>>, files: Seq<String>) -> bool {
    exists|v: Seq<String>| strictly_ascending(v) && names_set(v) == set && #[trigger] yaml_names(v, files)
}

/// `files` are the groups files for the selected names: each name with
/// `.yaml`, in ascending order of name; at least one.
pub open spec fn plan_ok(profiles: ProfilesConfig, sync_all: bool, files: Seq<String>) -> bool {
    match spec_selected_groups(profiles, sync_all) {
        Ok(set) => set != Set::<Seq<char>>::empty() && lists_files(set, files),
        Err(_) => false,
    }
}

/// `files` are the rules files for the selected names, in ascending order.
pub open spec fn rules_plan_ok(profiles: ProfilesConfig, sync_all: bool, files: Seq<String>) -> bool {
    lists_files(spec_selected_rules(profiles, sync_all), files)
}

/// `e` is the reason why no groups file can be written.
pub open spec fn plan_err(profiles: ProfilesConfig, sync_all: bool, e: ProfileError) -> bool {
    match spec_selected_groups(profiles, sync_all) {
        Ok(set) => set == Set::<Seq<char>>::empty() && e == ProfileError::NothingToWrite,
        Err(f) => e == f,
    }
}

fn yaml_files(names: &Vec<String>) -> (files: Vec<String>)
    ensures
        yaml_names(names@, files@),
{
    let mut files: Vec<String> = Vec::new();
    let mut i: usize = 0;
    while i < names.len()
        invariant
            i <= names@.len(),
            files@.len() == i,
            forall|k: int| 0 <= k < i ==> (#[trigger] files@[k])@ == names@[k]@ + ".yaml"@,
        decreases names@.len() - i,
    {
        files.push(groups_file_name(&names[i]));
        i = i + 1;
    }
    files
}

/// The groups files to write: their file names in ascending order of name;
/// an error when there is none.
pub fn plan_groups_files(profiles: &ProfilesConfig, sync_all: bool) -> (r: Result<Vec<String>, ProfileError>)
    ensures
        match r {
            Ok(files) => plan_ok(*profiles, sync_all, files@),
            Err(e) => plan_err(*profiles, sync_all, e),
        },
{
    let names = select_groups_files(profiles, sync_all)?;
    if names.len() == 0 {
        proof {
            assert(names_set(names@) =~= Set::empty());
        }
        return Err(ProfileError::NothingToWrite);
    }
    let files = yaml_files(&names);
    proof {
        let set = names_set(names@);
        assert(set.contains(names@[0]@));
        assert(!Set::<Seq<char>>::empty().contains(names@[0]@));
    }
    Ok(files)
}

/// The rules files to write: their file names in ascending order of name.
pub fn plan_rules_files(profiles: &ProfilesConfig, sync_all: bool) -> (files: Vec<String>)
    ensures
        rules_plan_ok(*profiles, sync_all, files@),
{
    let names = select_rules_files(profiles, sync_all);
    yaml_files(&names)
}

/// What a sync comes to: the groups files and rules files to touch, and
/// whether to write them.
#[derive(Debug, Clone, PartialEq, Eq)]
pub struct SyncPlan {
    pub groups_files: Vec<String>,
    pub rules_files: Vec<String>,
    pub write: bool,
}

/// What `sync_rw_groups` gives for the profiles, `sync_all` and `dry_run`.
pub open spec fn sync_post(profiles: ProfilesConfig, sync_all: bool, dry_run: bool, r: Result<SyncPlan, ProfileError>) -> bool {
    match r {
        Ok(p) => {
            &&& p.write == !dry_run
            &&& plan_ok(profiles, sync_all, p.groups_files@)
            &&& rules_plan_ok(profiles, sync_all, p.rules_files@)
        },
        Err(e) => plan_err(profiles, sync_all, e),
    }
}

/// Syncs the managed groups and routing rules into Clash Verge: the groups
/// file and rules file of the current profile, or with `sync_all` those of
/// every remote profile, each written unless this is a dry run. There must
/// be a groups file to write.
pub fn sync_rw_groups(profiles: &ProfilesConfig, sync_all: bool, dry_run: bool) -> (r: Result<SyncPlan, ProfileError>)
    ensures
        sync_post(*profiles, sync_all, dry_run, r),
{
    let groups_files = plan_groups_files(profiles, sync_all)?;
    let rules_files = plan_rules_files(profiles, sync_all);
    Ok(SyncPlan { groups_files, rules_files, write: !dry_run })
}

proof fn lemma_lex_irreflexive(a: Seq<char>)
    ensures
        !lex_lt(a, a),
{
    lemma_lex_total(a, a);
}

/// Two lists of names in strictly ascending order with the same names are
/// the same list.
proof fn lemma_ascending_unique(a: Seq<String>, b: Seq<String>)
    requires
        strictly_ascending(a),
        strictly_ascending(b),
        names_set(a) == names_set(b),
    ensures
        a.len() == b.len(),
        forall|k: int| 0 <= k < a.len() ==> (#[trigger] a[k])@ == b[k]@,
    decreases a.len(),
{
    if a.len() == 0 {
        if b.len() > 0 {
            assert(names_set(b).contains(b[0]@));
        }
        return;
    }
    assert(names_set(a).contains(a[0]@));
    let j = choose|j: int| 0 <= j < b.len() && b[j]@ == a[0]@;
    assert(names_set(b).contains(b[0]@));
    let i = choose|i: int| 0 <= i < a.len() && a[i]@ == b[0]@;
    if i > 0 && j > 0 {
        assert(lex_lt(a[0]@, a[i]@));
        assert(lex_lt(b[0]@, b[j]@));
        lemma_lex_total(a[0]@, b[0]@);
    }
    if i > 0 && j == 0 {
        assert(lex_lt(a[0]@, a[i]@));
        lemma_lex_irreflexive(a[0]@);
    }
    if i == 0 && j > 0 {
        assert(lex_lt(b[0]@, b[j]@));
        lemma_lex_irreflexive(b[0]@);
    }
    assert(a[0]@ == b[0]@);
    let a1 = a.drop_first();
    let b1 = b.drop_first();
    assert forall|n: Seq<char>| names_set(a1).contains(n) implies names_set(b1).contains(n) by {
        let k = choose|k: int| 0 <= k < a1.len() && a1[k]@ == n;
        assert(a1[k] == a[k + 1]);
        assert(lex_lt(a[0]@, a[k + 1]@));
        lemma_lex_irreflexive(a[0]@);
        assert(names_set(a).contains(n));
        let m = choose|m: int| 0 <= m < b.len() && b[m]@ == n;
        assert(m != 0);
        assert(b1[m - 1] == b[m]);
    }
    assert forall|n: Seq<char>| names_set(b1).contains(n) implies names_set(a1).contains(n) by {
        let k = choose|k: int| 0 <= k < b1.len() && b1[k]@ == n;
        assert(b1[k] == b[k + 1]);
        assert(lex_lt(b[0]@, b[k + 1]@));
        lemma_lex_irreflexive(b[0]@);
        assert(names_set(b).contains(n));
        let m = choose|m: int| 0 <= m < a.len() && a[m]@ == n;
        assert(m != 0);
        assert(a1[m - 1] == a[m]);
    }
    assert(names_set(a1) =~= names_set(b1));
    assert(strictly_ascending(a1)) by {
        assert forall|x: int, y: int| 0 <= x < y < a1.len() implies lex_lt(a1[x]@, a1[y]@) by {
            assert(a1[x] == a[x + 1] && a1[y] == a[y + 1]);
        }
    }
    assert(strictly_ascending(b1)) by {
        assert forall|x: int, y: int| 0 <= x < y < b1.len() implies lex_lt(b1[x]@, b1[y]@) by {
            assert(b1[x] == b[x + 1] && b1[y] == b[y + 1]);
        }
    }
    lemma_ascending_unique(a1, b1);
    assert forall|k: int| 0 <= k < a.len() implies (#[trigger] a[k])@ == b[k]@ by {
        if k > 0 {
            assert(a[k] == a1[k - 1] && b[k] == b1[k - 1]);
        }
    }
}

proof fn lemma_lists_files_unique(set: Set<Seq<char>>, f: Seq<String>, g: Seq<String>)
    requires
        lists_files(set, f),
        lists_files(set, g),
    ensures
        f.len() == g.len(),
        forall|k: int| 0 <= k < f.len() ==> (#[trigger] f[k])@ == g[k]@,
{
    let v = choose|v: Seq<String>| strictly_ascending(v) && names_set(v) == set && #[trigger] yaml_names(v, f);
    let w = choose|w: Seq<String>| strictly_ascending(w) && names_set(w) == set && #[trigger] yaml_names(w, g);
    lemma_ascending_unique(v, w);
    assert forall|k: int| 0 <= k < f.len() implies (#[trigger] f[k])@ == g[k]@ by {
        assert(f[k]@ == v[k]@ + ".yaml"@);
        assert(g[k]@ == w[k]@ + ".yaml"@);
    }
}

/// A dry run plans the same files as a real run, or fails the same way;
/// only whether they are written differs.
pub proof fn law_dry_run_plans_the_same_files(
    profiles: ProfilesConfig,
    sync_all: bool,
    dry_plan: Result<SyncPlan, ProfileError>,
    applied: Result<SyncPlan, ProfileError>,
)
    requires
        sync_post(profiles, sync_all, true, dry_plan),
        sync_post(profiles, sync_all, false, applied),
    ensures
        (dry_plan is Ok) <==> (applied is Ok),
        dry_plan matches Err(e) ==> applied == Err::<SyncPlan, ProfileError>(e),
        dry_plan matches Ok(d) ==> (applied matches Ok(w) && {
            &&& !d.write && w.write
            &&& d.groups_files@.len() == w.groups_files@.len()
            &&& forall|k: int| 0 <= k < d.groups_files@.len() ==> (#[trigger] d.groups_files@[k])@ == w.groups_files@[k]@
            &&& d.rules_files@.len() == w.rules_files@.len()
            &&& forall|k: int| 0 <= k < d.rules_files@.len() ==> (#[trigger] d.rules_files@[k])@ == w.rules_files@[k]@
        }),
{
    match (dry_plan, applied) {
        (Ok(d), Ok(w)) => {
            match spec_selected_groups(profiles, sync_all) {
                Ok(set) => lemma_lists_files_unique(set, d.groups_files@, w.groups_files@),
                Err(_) => {},
            }
            lemma_lists_files_unique(spec_selected_rules(profiles, sync_all), d.rules_files@, w.rules_files@);
        },
        (Ok(d), Err(e)) => {
            match spec_selected_groups(profiles, sync_all) {
                Ok(set) => {},
                Err(_) => {},
            }
        },
        (Err(e), Ok(w)) => {},
        (Err(e), Err(f)) => {},
    }
}

} // verus!

verus! {

/// The strategy group of the first group keyed `key`.
pub open spec fn strategy_of(groups: Seq<(String, GroupConfig)>, key: Seq<char>) -> Option<Seq<char>>
    decreases groups.len(),
{
    if groups.len() == 0 {
        None
    } else if groups[0].0@ == key {
        Some(groups[0].1.strategy_group@)
    } else {
        strategy_of(groups.drop_first(), key)
    }
}

/// The proxy group a routing entry sends its domain to: the strategy group
/// of the group it names (trimmed), or that name itself (an `RW_` group).
pub open spec fn route_target(groups: Seq<(String, GroupConfig)>, group_ref: Seq<char>) -> Seq<char> {
    match strategy_of(groups, trim_seq(group_ref)) {
        Some(s) => s,
        None => trim_seq(group_ref),
    }
}

/// The rule of a routing entry: `DOMAIN,{domain},{target}`.
pub open spec fn domain_rule(groups: Seq<(String, GroupConfig)>, entry: (String, String)) -> Seq<char> {
    "DOMAIN,"@ + entry.0@ + ","@ + route_target(groups, entry.1@)
}

/// The managed rules, in order: the daemon's own traffic goes through the
/// probe group, each routed domain to its group's strategy group, China to
/// `RW_CN_DIRECT`, and everything else to `RW_GLOBAL`.
pub open spec fn spec_managed_rules(cfg: Config) -> Seq<Seq<char>> {
    let routes = match cfg.routing {
        Some(r) => r.domain_to_group@,
        None => Seq::empty(),
    };
    seq!["PROCESS-NAME,route-warden,RW_PROBE"@]
        + routes.map_values(|e: (String, String)| domain_rule(cfg.groups@, e))
        + seq!["GEOIP,CN,RW_CN_DIRECT,no-resolve"@, "MATCH,RW_GLOBAL"@]
}

/// The three rule lists of a rules enhancement file.
#[derive(Debug, Clone, PartialEq, Eq)]
pub struct RulesTemplate {
    /// Rules put before the profile's own.
    pub prepend: Vec<String>,
    /// Rules put after the profile's own.
    pub append: Vec<String>,
    /// Rules taken out of the profile's own.
    pub delete: Vec<String>,
}

fn find_strategy(groups: &Vec<(String, GroupConfig)>, key: &String) -> (r: Option<String>)
    ensures
        match (r, strategy_of(groups@, key@)) {
            (Some(s), Some(t)) => s@ == t,
            (None, None) => true,
            _ => false,
        },
{
    let mut i: usize = 0;
    assert(groups@.skip(0) =~= groups@);
    while i < groups.len()
        invariant
            i <= groups@.len(),
            strategy_of(groups@, key@) == strategy_of(groups@.skip(i as int), key@),
        decreases groups@.len() - i,
    {
        assert(groups@.skip(i as int).drop_first() =~= groups@.skip(i + 1));
        if strings_equal(&groups[i].0, key) {
            assert(groups@.skip(i as int)[0] == groups@[i as int]);
            return Some(groups[i].1.strategy_group.clone());
        }
        i = i + 1;
    }
    None
}

fn domain_rule_text(groups: &Vec<(String, GroupConfig)>, entry: &(String, String)) -> (r: String)
    ensures
        r@ == domain_rule(groups@, *entry),
{
    let name = trim_string(entry.1.as_str());
    let target = match find_strategy(groups, &name) {
        Some(s) => s,
        None => name,
    };
    let mut s = to_owned_string("DOMAIN,");
    s.append(entry.0.as_str());
    s.append(",");
    s.append(target.as_str());
    s
}

/// The managed rules file: the managed rules before the profile's own, and
/// nothing appended or deleted.
pub fn managed_rules(config: &Config) -> (r: RulesTemplate)
    ensures
        names_view(r.prepend@) == spec_managed_rules(*config),
        r.append@.len() == 0,
        r.delete@.len() == 0,
{
    let ghost routes = if config.routing is Some {
        config.routing->0.domain_to_group@
    } else {
        Seq::<(String, String)>::empty()
    };
    let ghost rule_of = |e: (String, String)| domain_rule(config.groups@, e);
    let mut prepend: Vec<String> = Vec::new();
    prepend.push(to_owned_string("PROCESS-NAME,route-warden,RW_PROBE"));
    assert(names_view(prepend@) =~= seq!["PROCESS-NAME,route-warden,RW_PROBE"@]
        + routes.take(0).map_values(rule_of));
    if let Some(routing) = &config.routing {
        let mut i: usize = 0;
        while i < routing.domain_to_group.len()
            invariant
                routes == routing.domain_to_group@,
                i <= routes.len(),
                rule_of == (|e: (String, String)| domain_rule(config.groups@, e)),
                names_view(prepend@) == seq!["PROCESS-NAME,route-warden,RW_PROBE"@]
                    + routes.take(i as int).map_values(rule_of),
            decreases routes.len() - i,
        {
            let rule = domain_rule_text(&config.groups, &routing.domain_to_group[i]);
            let ghost before = prepend@;
            prepend.push(rule);
            assert(routes.take(i + 1) =~= routes.take(i as int).push(routes[i as int]));
            assert(names_view(prepend@) =~= names_view(before).push(rule@));
            assert(routes.take(i + 1).map_values(rule_of) =~= routes.take(i as int).map_values(rule_of).push(rule_of(routes[i as int])));
            i = i + 1;
        }
        assert(routes.take(routes.len() as int) =~= routes);
    } else {
        assert(routes.take(0) =~= routes);
    }
    let ghost mid = prepend@;
    prepend.push(to_owned_string("GEOIP,CN,RW_CN_DIRECT,no-resolve"));
    prepend.push(to_owned_string("MATCH,RW_GLOBAL"));
    assert(names_view(prepend@) =~= names_view(mid) + seq!["GEOIP,CN,RW_CN_DIRECT,no-resolve"@, "MATCH,RW_GLOBAL"@]);
    RulesTemplate { prepend, append: Vec::new(), delete: Vec::new() }
}

/// The text of a managed groups file: a header line, a blank line, then the
/// serialized groups.
pub fn managed_groups_text(yaml: &str) -> (r: String)
    ensures
        r@ == "# Managed by route-warden sync-rw-groups\n\n"@ + yaml@,
{
    let mut s = to_owned_string("# Managed by route-warden sync-rw-groups\n\n");
    s.append(yaml);
    s
}

} // verus!
