//! The session-scoped registry of solved riddles, keyed by question text.
//! Insert-only for the lifetime of the process; its one read operation is the
//! membership test used to skip already-solved doors.

use vstd::prelude::*;

verus! {

/// The set of riddle identifiers (question texts) answered so far in this
/// session. Not persisted: a new process starts empty.
pub struct AnsweredRiddles {
    ids: Vec<String>,
}

impl View for AnsweredRiddles {
    type V = Set<Seq<char>>;

    closed spec fn view(&self) -> Set<Seq<char>> {
        Set::new(|q: Seq<char>| exists|i: int| 0 <= i < self.ids@.len() && self.ids@[i]@ == q)
    }
}

impl AnsweredRiddles {
    /// A fresh session has no solved riddles.
    pub fn new() -> (r: Self)
        ensures
            r@ == Set::<Seq<char>>::empty(),
    {
        let r = AnsweredRiddles { ids: Vec::new() };
        proof {
            assert(r@ =~= Set::<Seq<char>>::empty());
        }
        r
    }

    /// Whether `question` was already answered this session.
    pub fn contains(&self, question: &String) -> (r: bool)
        ensures
            r == self@.contains(question@),
    {
        let mut i: usize = 0;
        while i < self.ids.len()
            invariant
                0 <= i <= self.ids@.len(),
                forall|j: int| 0 <= j < i ==> (#[trigger] self.ids@[j])@ != question@,
            decreases self.ids@.len() - i,
        {
            if self.ids[i].eq(question) {
                proof {
                    assert(self@.contains(question@)) by {
                        assert(self.ids@[i as int]@ == question@);
                    }
                }
                return true;
            }
            i = i + 1;
        }
        proof {
            assert(!self@.contains(question@));
        }
        false
    }

    /// Records `question` as answered. A question already present stays
    /// present: the registry only ever grows.
    pub fn insert(&mut self, question: String)
        ensures
            final(self)@ == old(self)@.insert(question@),
    {
        let already = self.contains(&question);
        if !already {
            let ghost before = self.ids@;
            self.ids.push(question);
            proof {
                assert(final(self)@ =~= old(self)@.insert(question@)) by {
                    assert(forall|j: int|
                        0 <= j < before.len() ==> self.ids@[j] == #[trigger] before[j]);
                    assert(self.ids@[before.len() as int]@ == question@);
                    assert(forall|q: Seq<char>|
                        #[trigger] old(self)@.contains(q) ==> self@.contains(q));
                }
            }
        } else {
            proof {
                assert(final(self)@ =~= old(self)@.insert(question@));
            }
        }
    }
}

} // verus!
