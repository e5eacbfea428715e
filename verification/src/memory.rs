//! The streak memory: per group, which candidate has been best in a row and
//! for how many rounds.

use vstd::prelude::*;
use crate::text::strings_equal;

verus! {

/// Per group key, the candidate that won the last rounds and its number of
/// consecutive wins.
pub struct RuntimeMemory {
    candidate_wins: Vec<(String, String, u32)>,
}

/// The streak table as a map from group key to (candidate, wins).
pub open spec fn table_map(s: Seq<(String, String, u32)>) -> Map<Seq<char>, (Seq<char>, u32)> {
    Map::new(
        |k: Seq<char>| exists|i: int| 0 <= i < s.len() && s[i].0@ == k,
        |k: Seq<char>| {
            let i = choose|i: int| 0 <= i < s.len() && s[i].0@ == k;
            (s[i].1@, s[i].2)
        },
    )
}

pub open spec fn keys_unique(s: Seq<(String, String, u32)>) -> bool {
    forall|i: int, j: int| 0 <= i < s.len() && 0 <= j < s.len() && i != j ==> s[i].0@ != s[j].0@
}

impl View for RuntimeMemory {
    type V = Map<Seq<char>, (Seq<char>, u32)>;

    closed spec fn view(&self) -> Map<Seq<char>, (Seq<char>, u32)> {
        table_map(self.candidate_wins@)
    }
}

/// `n + 1`, staying at `u32::MAX`.
pub open spec fn saturating_inc(n: u32) -> u32 {
    if n == u32::MAX { n } else { (n + 1) as u32 }
}

/// The streak of `candidate` after one more round it won: one more than
/// before when it also won the rounds before, else one.
pub open spec fn next_streak(prev: Option<(Seq<char>, u32)>, candidate: Seq<char>) -> u32 {
    match prev {
        Some((c, n)) => if c == candidate { saturating_inc(n) } else { 1 },
        None => 1,
    }
}

/// A candidate's streak: one more than before when it also won the round
/// before (staying at `u32::MAX`), else one.
pub proof fn law_streak_counts_consecutive_wins(prev: Option<(Seq<char>, u32)>, candidate: Seq<char>)
    ensures
        prev matches Some((c, n)) ==> (c == candidate && n < u32::MAX ==> next_streak(prev, candidate) == n + 1),
        prev matches Some((c, n)) ==> (c == candidate && n == u32::MAX ==> next_streak(prev, candidate) == u32::MAX),
        prev matches Some((c, n)) ==> (c != candidate ==> next_streak(prev, candidate) == 1),
        prev is None ==> next_streak(prev, candidate) == 1,
{
}

proof fn lemma_table_lookup(s: Seq<(String, String, u32)>, i: int)
    requires
        keys_unique(s),
        0 <= i < s.len(),
    ensures
        table_map(s).contains_key(s[i].0@),
        table_map(s)[s[i].0@] == (s[i].1@, s[i].2),
{
    let k = s[i].0@;
    assert(exists|j: int| 0 <= j < s.len() && s[j].0@ == k);
    let j = choose|j: int| 0 <= j < s.len() && s[j].0@ == k;
    assert(j == i);
}

impl RuntimeMemory {
    #[verifier::type_invariant]
    closed spec fn inv(self) -> bool {
        keys_unique(self.candidate_wins@)
    }

    /// An empty memory.
    pub fn new() -> (m: RuntimeMemory)
        ensures
            m@ == Map::<Seq<char>, (Seq<char>, u32)>::empty(),
    {
        let m = RuntimeMemory { candidate_wins: Vec::new() };
        assert(m@ =~= Map::<Seq<char>, (Seq<char>, u32)>::empty());
        m
    }

    fn find(&self, group_key: &String) -> (r: Option<usize>)
        ensures
            match r {
                Some(i) => i < self.candidate_wins@.len() && self.candidate_wins@[i as int].0@ == group_key@,
                None => forall|i: int| 0 <= i < self.candidate_wins@.len() ==> self.candidate_wins@[i].0@ != group_key@,
            },
    {
        let mut i: usize = 0;
        while i < self.candidate_wins.len()
            invariant
                i <= self.candidate_wins@.len(),
                forall|j: int| 0 <= j < i ==> self.candidate_wins@[j].0@ != group_key@,
            decreases self.candidate_wins@.len() - i,
        {
            if strings_equal(&self.candidate_wins[i].0, group_key) {
                return Some(i);
            }
            i = i + 1;
        }
        None
    }

    /// Records that `candidate` was the best node of `group_key` this round
    /// and returns its streak: zero (and the streak forgotten) when it is
    /// the current node, else its consecutive wins including this round.
    pub fn update_candidate_streak(&mut self, group_key: &str, current: &str, candidate: &str) -> (r: u32)
        ensures
            candidate@ == current@ ==> {
                &&& r == 0
                &&& final(self)@ == old(self)@.remove(group_key@)
            },
            candidate@ != current@ ==> {
                &&& r == next_streak(
                    if old(self)@.contains_key(group_key@) { Some(old(self)@[group_key@]) } else { None },
                    candidate@,
                )
                &&& final(self)@ == old(self)@.insert(group_key@, (candidate@, r))
            },
    {
        proof {
            use_type_invariant(&*self);
        }
        let key = String::from_str(group_key);
        let found = self.find(&key);
        let ghost s = self.candidate_wins@;
        if crate::text::str_equals(candidate, current) {
            match found {
                Some(i) => {
                    let mut table = Vec::new();
                    std::mem::swap(&mut table, &mut self.candidate_wins);
                    table.remove(i);
                    let ghost t = table@;
                    assert(t =~= s.remove(i as int));
                    assert(keys_unique(t)) by {
                        assert forall|a: int, b: int| 0 <= a < t.len() && 0 <= b < t.len() && a != b implies t[a].0@ != t[b].0@ by {
                            let a2 = if a < i { a } else { a + 1 };
                            let b2 = if b < i { b } else { b + 1 };
                            assert(t[a] == s[a2]);
                            assert(t[b] == s[b2]);
                        }
                    }
                    self.candidate_wins = table;
                    assert(table_map(t) =~= table_map(s).remove(group_key@)) by {
                        assert forall|k: Seq<char>| #[trigger] table_map(t).contains_key(k) == table_map(s).remove(group_key@).contains_key(k) by {
                            if table_map(t).contains_key(k) {
                                let j = choose|j: int| 0 <= j < t.len() && t[j].0@ == k;
                                let j2 = if j < i { j } else { j + 1 };
                                assert(s[j2] == t[j]);
                                assert(s[j2].0@ != s[i as int].0@);
                            }
                            if table_map(s).remove(group_key@).contains_key(k) {
                                let j = choose|j: int| 0 <= j < s.len() && s[j].0@ == k;
                                assert(j != i);
                                let j2 = if j < i { j } else { j - 1 };
                                assert(t[j2] == s[j]);
                            }
                        }
                        assert forall|k: Seq<char>| #[trigger] table_map(t).contains_key(k) implies table_map(t)[k] == table_map(s).remove(group_key@)[k] by {
                            let j = choose|j: int| 0 <= j < t.len() && t[j].0@ == k;
                            let j2 = if j < i { j } else { j + 1 };
                            assert(s[j2] == t[j]);
                            lemma_table_lookup(t, j);
                            lemma_table_lookup(s, j2);
                        }
                    }
                },
                None => {
                    assert(table_map(s) =~= table_map(s).remove(group_key@));
                },
            }
            return 0;
        }
        match found {
            Some(i) => {
                proof {
                    lemma_table_lookup(s, i as int);
                }
                let prev_same = crate::text::str_equals(self.candidate_wins[i].1.as_str(), candidate);
                let n = self.candidate_wins[i].2;
                let next: u32 = if prev_same {
                    if n == u32::MAX { n } else { n + 1 }
                } else {
                    1
                };
                let mut table = Vec::new();
                std::mem::swap(&mut table, &mut self.candidate_wins);
                table.set(i, (key, String::from_str(candidate), next));
                let ghost t = table@;
                assert(t =~= s.update(i as int, t[i as int]));
                assert(keys_unique(t)) by {
                    assert forall|a: int, b: int| 0 <= a < t.len() && 0 <= b < t.len() && a != b implies t[a].0@ != t[b].0@ by {
                        if a != i { assert(t[a] == s[a]); }
                        if b != i { assert(t[b] == s[b]); }
                    }
                }
                self.candidate_wins = table;
                assert(table_map(t) =~= table_map(s).insert(group_key@, (candidate@, next))) by {
                    assert forall|k: Seq<char>| #[trigger] table_map(t).contains_key(k) == table_map(s).insert(group_key@, (candidate@, next)).contains_key(k) by {
                        if table_map(t).contains_key(k) {
                            let j = choose|j: int| 0 <= j < t.len() && t[j].0@ == k;
                            if j != i { assert(s[j] == t[j]); }
                        }
                        if table_map(s).contains_key(k) {
                            let j = choose|j: int| 0 <= j < s.len() && s[j].0@ == k;
                            if j != i { assert(s[j] == t[j]); }
                        }
                        if k == group_key@ {
                            assert(t[i as int].0@ == k);
                        }
                    }
                    assert forall|k: Seq<char>| #[trigger] table_map(t).contains_key(k) implies table_map(t)[k] == table_map(s).insert(group_key@, (candidate@, next))[k] by {
                        let j = choose|j: int| 0 <= j < t.len() && t[j].0@ == k;
                        lemma_table_lookup(t, j);
                        if j != i {
                            assert(s[j] == t[j]);
                            lemma_table_lookup(s, j);
                        }
                    }
                }
                next
            },
            None => {
                let mut table = Vec::new();
                std::mem::swap(&mut table, &mut self.candidate_wins);
                table.push((key, String::from_str(candidate), 1));
                let ghost t = table@;
                assert(t =~= s.push(t.last()));
                assert(keys_unique(t)) by {
                    assert forall|a: int, b: int| 0 <= a < t.len() && 0 <= b < t.len() && a != b implies t[a].0@ != t[b].0@ by {
                        if a < s.len() { assert(t[a] == s[a]); }
                        if b < s.len() { assert(t[b] == s[b]); }
                    }
                }
                self.candidate_wins = table;
                assert(table_map(t) =~= table_map(s).insert(group_key@, (candidate@, 1u32))) by {
                    assert forall|k: Seq<char>| #[trigger] table_map(t).contains_key(k) == table_map(s).insert(group_key@, (candidate@, 1u32)).contains_key(k) by {
                        if table_map(t).contains_key(k) {
                            let j = choose|j: int| 0 <= j < t.len() && t[j].0@ == k;
                            if j < s.len() { assert(s[j] == t[j]); }
                        }
                        if table_map(s).contains_key(k) {
                            let j = choose|j: int| 0 <= j < s.len() && s[j].0@ == k;
                            assert(s[j] == t[j]);
                        }
                        if k == group_key@ {
                            assert(t[s.len() as int].0@ == k);
                        }
                    }
                    assert forall|k: Seq<char>| #[trigger] table_map(t).contains_key(k) implies table_map(t)[k] == table_map(s).insert(group_key@, (candidate@, 1u32))[k] by {
                        let j = choose|j: int| 0 <= j < t.len() && t[j].0@ == k;
                        lemma_table_lookup(t, j);
                        if j < s.len() {
                            assert(s[j] == t[j]);
                            lemma_table_lookup(s, j);
                        }
                    }
                }
                1
            },
        }
    }
}

impl Default for RuntimeMemory {
    fn default() -> (m: RuntimeMemory)
        ensures
            m@ == Map::<Seq<char>, (Seq<char>, u32)>::empty(),
    {
        RuntimeMemory::new()
    }
}

} // verus!
