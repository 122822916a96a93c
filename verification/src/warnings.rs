//! The deduplicated advisory log: each kind of warning is recorded with its
//! message the first time it is raised and silently ignored afterwards.

use vstd::prelude::*;

verus! {

/// The kinds of advisory condition a run can raise.
#[derive(Clone, Copy, Debug, PartialEq, Eq, Structural)]
pub enum WarnType {
    /// A commanded feed rate exceeded the machine's capability, so a
    /// duration was clamped to the rapid floor.
    TooFast,
}

/// What recording a kind does to the recorded kinds: nothing when it is
/// already there, otherwise it is appended.
pub open spec fn spec_warn_types(ts: Seq<WarnType>, t: WarnType) -> Seq<WarnType> {
    if ts.contains(t) {
        ts
    } else {
        ts.push(t)
    }
}

/// No kind occurs twice.
pub open spec fn no_dups(ts: Seq<WarnType>) -> bool {
    forall|i: int, j: int| 0 <= i < j < ts.len() ==> ts[i] != ts[j]
}

/// The fixed advisory text each kind is recorded with.
pub open spec fn warn_message(t: WarnType) -> Seq<char> {
    match t {
        WarnType::TooFast => "Feed speed is higher than set machine's capabilities: duration results may be imprecise. Moreover, it will probably damage the CNC."@,
    }
}

/// The collected warnings: one human-readable message per distinct kind, in
/// first-seen order.
#[derive(Debug)]
pub struct Warnlog {
    messages: Vec<String>,
    logged_types: Vec<WarnType>,
}

impl Warnlog {
    /// The kinds recorded so far, in first-seen order.
    pub closed spec fn types(self) -> Seq<WarnType> {
        self.logged_types@
    }

    /// How many messages are held.
    pub closed spec fn msg_count(self) -> nat {
        self.messages@.len()
    }

    /// The held message texts, in first-seen order.
    pub closed spec fn msgs(self) -> Seq<Seq<char>> {
        self.messages@.map_values(|s: String| s@)
    }

    /// One message per recorded kind, each carrying its kind's fixed text,
    /// and no kind twice.
    pub open spec fn wf(self) -> bool {
        &&& self.msg_count() == self.types().len()
        &&& no_dups(self.types())
        &&& forall|i: int|
            0 <= i < self.types().len() ==> self.msgs()[i] == warn_message(#[trigger] self.types()[i])
    }

    /// An empty log.
    pub fn new() -> (w: Warnlog)
        ensures
            w.wf(),
            w.types() == Seq::<WarnType>::empty(),
            w.msg_count() == 0,
    {
        Warnlog { messages: Vec::new(), logged_types: Vec::new() }
    }

    /// Records the fixed message for the kind, once.
    pub fn warn(&mut self, t: WarnType)
        requires
            old(self).wf(),
        ensures
            final(self).wf(),
            final(self).types() == spec_warn_types(old(self).types(), t),
            final(self).types().contains(t),
            final(self).msgs() == (if old(self).types().contains(t) {
                old(self).msgs()
            } else {
                old(self).msgs().push(warn_message(t))
            }),
    {
        match t {
            WarnType::TooFast => {
                let message =
                    "Feed speed is higher than set machine's capabilities: duration results may be imprecise. Moreover, it will probably damage the CNC.".to_owned();
                proof {
                    assert(message@ == warn_message(t));
                }
                self.store_messages(message, t);
            },
        }
    }

    /// Appends the message unless the kind was already recorded.
    fn store_messages(&mut self, message: String, t: WarnType)
        requires
            old(self).wf(),
            message@ == warn_message(t),
        ensures
            final(self).wf(),
            final(self).types() == spec_warn_types(old(self).types(), t),
            final(self).types().contains(t),
            final(self).msgs() == (if old(self).types().contains(t) {
                old(self).msgs()
            } else {
                old(self).msgs().push(warn_message(t))
            }),
    {
        let mut seen = false;
        let mut i: usize = 0;
        while i < self.logged_types.len()
            invariant
                0 <= i <= self.logged_types.len(),
                seen == exists|j: int| 0 <= j < i && self.logged_types@[j] == t,
            decreases self.logged_types.len() - i,
        {
            if self.logged_types[i] == t {
                seen = true;
            }
            i = i + 1;
        }
        proof {
            if seen {
                assert(self.logged_types@.contains(t));
            } else {
                assert(forall|j: int|
                    0 <= j < self.logged_types@.len() ==> self.logged_types@[j] != t);
                assert(!self.logged_types@.contains(t));
            }
        }
        if !seen {
            self.logged_types.push(t);
            self.messages.push(message);
            proof {
                let ts = self.logged_types@;
                assert(ts[ts.len() - 1] == t);
                assert(ts.contains(t));
                assert(no_dups(ts));
                assert(self.msgs() =~= old(self).msgs().push(message@));
                assert forall|i: int| 0 <= i < ts.len() implies self.msgs()[i] == warn_message(
                    #[trigger] ts[i],
                ) by {
                    if i < ts.len() - 1 {
                        assert(ts[i] == old(self).types()[i]);
                        assert(self.msgs()[i] == old(self).msgs()[i]);
                    }
                }
            }
        }
    }

    /// The accumulated messages, for the caller to display: one per
    /// recorded kind, each the kind's fixed text.
    pub fn get_messages(&self) -> (r: &Vec<String>)
        ensures
            r@.len() == self.msg_count(),
            r@.map_values(|s: String| s@) == self.msgs(),
    {
        &self.messages
    }
}

/// A well-formed log never holds the same kind at two places: whenever a
/// kind was recorded, exactly one entry carries it, however many times it
/// was raised.
pub proof fn lemma_warn_at_most_once(w: Warnlog, t: WarnType)
    requires
        w.wf(),
    ensures
        forall|i: int, j: int|
            0 <= i < j < w.types().len() ==> !(w.types()[i] == t && w.types()[j] == t),
{
}

} // verus!
