//! Persistent observer decisions. The known_hosts store and Trust.pkl are
//! the sources of truth; the state only records decisions (suppressed
//! proposal ids), so that a dismissed or ignored proposal is not prompted
//! again on every scan.
use crate::sorted::{insert_sorted, lex_less, strictly_sorted};
use crate::strs::{dec16, s4, str_views};
use crate::text::{decimal, str_eq};
use vstd::prelude::*;

verus! {

/// The version of the state format this library reads and writes.
pub const STATE_VERSION: u16 = 1;

/// The observer's decisions: the format version and the suppressed
/// proposal ids, kept sorted and each once.
#[derive(Debug, Default)]
pub struct State {
    pub version: u16,
    pub suppressed: Vec<String>,
}

impl State {
    /// The suppressed proposal ids.
    pub open spec fn suppressed_ids(&self) -> Set<Seq<char>> {
        str_views(self.suppressed@).to_set()
    }

    /// The ids are sorted and none repeats.
    pub open spec fn well_formed(&self) -> bool {
        strictly_sorted(str_views(self.suppressed@))
    }

    /// A fresh state of the current version with nothing suppressed.
    pub fn new() -> (s: Self)
        ensures
            s.version == STATE_VERSION,
            s.suppressed_ids() == Set::<Seq<char>>::empty(),
            s.well_formed(),
    {
        let s = State { version: STATE_VERSION, suppressed: Vec::new() };
        assert(str_views(s.suppressed@).to_set() =~= Set::<Seq<char>>::empty());
        s
    }

    /// Whether a proposal was suppressed.
    pub fn is_suppressed(&self, id: &str) -> (r: bool)
        ensures
            r == self.suppressed_ids().contains(id@),
    {
        let mut i: usize = 0;
        while i < self.suppressed.len()
            invariant
                0 <= i <= self.suppressed@.len(),
                forall|j: int| 0 <= j < i ==> self.suppressed@[j]@ != id@,
            decreases self.suppressed@.len() - i,
        {
            if str_eq(self.suppressed[i].as_str(), id) {
                assert(str_views(self.suppressed@)[i as int] == id@);
                return true;
            }
            i += 1;
        }
        assert forall|j: int| 0 <= j < str_views(self.suppressed@).len() implies str_views(
            self.suppressed@,
        )[j] != id@ by {
            assert(str_views(self.suppressed@)[j] == self.suppressed@[j]@);
        }
        false
    }

    /// Whether the ids are sorted and none repeats (what [`State::suppress`]
    /// needs).
    pub fn ids_sorted(&self) -> (r: bool)
        ensures
            r == self.well_formed(),
    {
        let ghost ids = str_views(self.suppressed@);
        let mut i: usize = 1;
        if self.suppressed.len() == 0 {
            return true;
        }
        while i < self.suppressed.len()
            invariant
                ids == str_views(self.suppressed@),
                1 <= i <= ids.len(),
                strictly_sorted(ids.take(i as int)),
            decreases ids.len() - i,
        {
            if !lex_less(self.suppressed[i - 1].as_str(), self.suppressed[i].as_str()) {
                assert(!strictly_sorted(ids)) by {
                    assert(ids[i - 1] == self.suppressed@[i - 1]@);
                    assert(ids[i as int] == self.suppressed@[i as int]@);
                }
                return false;
            }
            assert forall|a: int, b: int| 0 <= a < b < i + 1 implies crate::sorted::lex_lt(
                #[trigger] ids.take(i + 1)[a],
                #[trigger] ids.take(i + 1)[b],
            ) by {
                assert(ids.take(i + 1)[a] == ids[a]);
                assert(ids.take(i + 1)[b] == ids[b]);
                if b < i {
                    assert(ids.take(i as int)[a] == ids[a] && ids.take(i as int)[b] == ids[b]);
                } else if a < i - 1 {
                    assert(ids.take(i as int)[a] == ids[a] && ids.take(i as int)[i - 1] == ids[i - 1]);
                    assert(ids[i - 1] == self.suppressed@[i - 1]@);
                    assert(ids[i as int] == self.suppressed@[i as int]@);
                    crate::sorted::lemma_lex_transitive(ids[a], ids[i - 1], ids[b]);
                } else {
                    assert(ids[i - 1] == self.suppressed@[i - 1]@);
                    assert(ids[i as int] == self.suppressed@[i as int]@);
                }
            }
            i += 1;
        }
        assert(ids.take(ids.len() as int) =~= ids);
        true
    }

    /// Suppresses a proposal so it is never prompted again.
    pub fn suppress(&mut self, id: &str)
        requires
            old(self).well_formed(),
        ensures
            final(self).version == old(self).version,
            final(self).suppressed_ids() == old(self).suppressed_ids().insert(id@),
            final(self).well_formed(),
    {
        insert_sorted(&mut self.suppressed, id);
    }

    /// The decisions after ignoring proposal `id`: the loaded decisions with
    /// `id` suppressed, or, where none exist yet, a fresh state of the
    /// current version that suppresses `id` alone. Nothing when the loaded
    /// ids are not sorted and unique.
    pub fn after_ignore(loaded: Option<State>, id: &str) -> (r: Option<State>)
        ensures
            match loaded {
                None => r matches Some(s) && s.version == STATE_VERSION && s.suppressed_ids()
                    == Set::<Seq<char>>::empty().insert(id@) && s.well_formed(),
                Some(l) => if l.well_formed() {
                    r matches Some(s) && s.version == l.version && s.suppressed_ids()
                        == l.suppressed_ids().insert(id@) && s.well_formed()
                } else {
                    r is None
                },
            },
    {
        let mut state = match loaded {
            Some(l) => l,
            None => State::new(),
        };
        if !state.ids_sorted() {
            return None;
        }
        state.suppress(id);
        Some(state)
    }

    /// Why a loaded state cannot be used: a version other than this
    /// library's; nothing when it can.
    pub fn version_error(&self, source: &str) -> (r: Option<String>)
        ensures
            match r {
                Some(m) => self.version != STATE_VERSION && m@ == source@
                    + " uses unsupported state version "@ + decimal(self.version as nat)
                    + " (expected 1)"@,
                None => self.version == STATE_VERSION,
            },
    {
        if self.version == STATE_VERSION {
            None
        } else {
            let v = dec16(self.version);
            Some(s4(source, " uses unsupported state version ", v.as_str(), " (expected 1)"))
        }
    }
}

/// A suppressed id stays suppressed, and suppressing one id changes no
/// other.
pub proof fn lemma_suppress_remembers(before: State, after: State, id: Seq<char>, other: Seq<char>)
    requires
        after.suppressed_ids() == before.suppressed_ids().insert(id),
    ensures
        after.suppressed_ids().contains(id),
        other != id ==> (after.suppressed_ids().contains(other) <==> before.suppressed_ids().contains(
            other,
        )),
{
}

} // verus!
