//! The threads that share an object or a queue, memory access by memory access.
//!
//! Everywhere else an operation takes effect as a whole. Here it is taken apart into
//! its accesses to the two words of the object and to the queue of the owner, and
//! the accesses of several threads come in any order. All accesses are taken to
//! happen one after the other, as all threads see them.
use crate::error::FatalError;
use crate::header::Counts;
use crate::layout::{
    cloned_weak_count, downgraded_count, Downgrade, WEAK_LOCKED_COUNT, WEAK_OVERFLOW_THRESHOLD,
};
use crate::packed::{fits_i62, U20_VALUES};
use crate::thread_id::ShortThreadId;
use crate::threads::ThreadStateFlag;
use crate::word::{BiasedWord, SharedCount, SharedWord};
use vstd::prelude::*;

verus! {

/// One object in the middle of whatever the threads do with it.
pub struct Shared {
    pub biased: BiasedWord,
    pub shared: SharedWord,
    /// The number of strong references that no thread has begun to release.
    pub held: nat,
    /// A thread has set the queued flag and has not queued the object yet.
    pub to_queue: bool,
    /// The object is in the queue of its owner.
    pub in_queue: bool,
    /// The object was taken from the queue, and its counts are about to be merged.
    pub merging: bool,
    /// The merged flag is set, and the biased word still names the owner.
    pub to_unown: bool,
    /// A thread is about to drop the value.
    pub to_drop: bool,
    /// How many times the value was dropped.
    pub dropped: nat,
    /// The owner thread counts references in the biased word.
    pub owner_active: bool,
}

/// What a thread does next.
pub enum Step {
    /// The owner counts one more reference, taken from a strong or from a weak one.
    OwnerClone,
    /// A reference taken from a strong one is counted in the shared word.
    Clone,
    /// A reference taken from a weak one is counted in the shared word.
    Upgrade,
    /// The owner releases a reference, and counts others still.
    OwnerRelease,
    /// The owner releases its last reference, and sets the merged flag in a shared word
    /// that is not marked as queued.
    OwnerLastRelease,
    /// A reference is released in the shared word, by the owner too where it cannot give
    /// up ownership.
    Release,
    /// The thread that set the queued flag queues the object.
    Queue,
    /// The thread that set the queued flag finds that the owner has ended, and is
    /// about to merge the counts itself.
    QueueDead,
    /// The object is taken from the queue.
    Take,
    /// The biased count is added to the shared count, and the merged flag is set.
    Merge,
    /// The biased word is reset.
    Unown,
    /// The value is dropped.
    Drop,
    /// The owner thread ends.
    OwnerEnds,
}

impl Shared {
    /// A new object, which is biased towards the thread that made it.
    pub open spec fn initial(biased: BiasedWord) -> Shared {
        Shared {
            biased,
            shared: SharedWord {
                shared_count: SharedCount { count: 0 },
                merged: false,
                queued: false,
            },
            held: 1,
            to_queue: false,
            in_queue: false,
            merging: false,
            to_unown: false,
            to_drop: false,
            dropped: 0,
            owner_active: true,
        }
    }

    /// Whether the owner thread is free to count in the biased word. It does nothing
    /// else while it merges the counts or resets the word.
    pub open spec fn owner_counts(self) -> bool {
        self.owner_active && self.biased.owner_id is Some && !self.merging && !self.to_unown
    }

    /// Whether merging the counts still fits with one more reference.
    pub open spec fn can_count(self) -> bool {
        self.shared.queued && !self.shared.merged ==> self.held < SharedCount::MAX
    }

    /// Whether a step can come next. A count that has overflowed ends the program.
    pub open spec fn enabled(self, step: Step) -> bool {
        match step {
            Step::OwnerClone => self.owner_counts() && self.biased.biased_count + 1 < U20_VALUES
                && self.can_count(),
            Step::Clone => self.held >= 1 && self.can_count() && self.shared.shared_count.count
                <= SharedWord::OVERFLOW_THRESHOLD,
            Step::Upgrade => !self.shared.dead() && self.can_count()
                && self.shared.shared_count.count < SharedCount::MAX,
            Step::OwnerRelease => self.owner_counts() && self.held >= 1 && self.biased.biased_count
                > 1,
            Step::OwnerLastRelease => self.owner_counts() && self.held >= 1
                && self.biased.biased_count == 1 && !self.shared.queued,
            Step::Release => self.held >= 1,
            Step::Queue => self.to_queue,
            Step::QueueDead => self.to_queue && !self.owner_active,
            Step::Take => self.in_queue,
            Step::Merge => self.merging,
            Step::Unown => self.to_unown,
            Step::Drop => self.to_drop,
            Step::OwnerEnds => true,
        }
    }

    /// What a step leaves behind.
    pub open spec fn after(self, step: Step) -> Shared {
        match step {
            Step::OwnerClone => Shared {
                biased: BiasedWord {
                    biased_count: (self.biased.biased_count + 1) as u32,
                    ..self.biased
                },
                held: self.held + 1,
                ..self
            },
            Step::Clone | Step::Upgrade => Shared {
                shared: self.shared.with_count(self.shared.shared_count.count + 1),
                held: self.held + 1,
                ..self
            },
            Step::OwnerRelease => Shared {
                biased: BiasedWord {
                    biased_count: (self.biased.biased_count - 1) as u32,
                    ..self.biased
                },
                held: (self.held - 1) as nat,
                ..self
            },
            Step::OwnerLastRelease => Shared {
                shared: SharedWord { merged: true, ..self.shared },
                held: (self.held - 1) as nat,
                to_unown: true,
                to_drop: self.shared.shared_count.count == 0,
                ..self
            },
            Step::Release => {
                let shared = self.shared.after_decrement();
                Shared {
                    shared,
                    held: (self.held - 1) as nat,
                    to_queue: self.to_queue || shared.queued != self.shared.queued,
                    to_drop: shared.queued == self.shared.queued && shared.dead(),
                    ..self
                }
            },
            Step::Queue => Shared { to_queue: false, in_queue: true, ..self },
            Step::QueueDead => Shared { to_queue: false, merging: true, ..self },
            Step::Take => Shared { in_queue: false, merging: true, ..self },
            Step::Merge => {
                let shared = self.shared.after_merge(self.biased.biased_count);
                Shared {
                    shared,
                    merging: false,
                    to_unown: true,
                    to_drop: shared.shared_count.count == 0,
                    ..self
                }
            },
            Step::Unown => Shared { biased: BiasedWord::unowned(), to_unown: false, ..self },
            Step::Drop => Shared { to_drop: false, dropped: self.dropped + 1, ..self },
            Step::OwnerEnds => Shared { owner_active: false, ..self },
        }
    }

    /// The two words.
    pub open spec fn counts(self) -> Counts {
        Counts { biased: self.biased, shared: self.shared }
    }

    /// The number of references that the two words count. The biased word counts
    /// nothing more once the merged flag is set.
    pub open spec fn counted(self) -> int {
        self.shared.shared_count.count + if self.shared.merged {
            0int
        } else {
            self.biased.biased_count as int
        }
    }

    /// What holds between any two steps.
    pub open spec fn wf(self) -> bool {
        &&& self.biased.wf()
        &&& self.shared.wf()
        &&& self.counted() == self.held
        &&& self.shared.queued && !self.shared.merged ==> self.held <= SharedCount::MAX
        &&& self.shared.shared_count.count < 0 ==> self.shared.queued
        &&& if self.shared.merged {
            &&& !self.to_queue && !self.in_queue && !self.merging
            &&& !self.to_unown ==> self.biased == BiasedWord::unowned()
        } else {
            &&& self.biased.owner_id is Some && self.biased.biased_count >= 1
            &&& !self.to_unown
            &&& self.shared.queued == (self.to_queue || self.in_queue || self.merging)
            &&& !(self.to_queue && self.in_queue) && !(self.to_queue && self.merging) && !(
            self.in_queue && self.merging)
        }
        &&& if self.shared.dead() {
            self.dropped == if self.to_drop {
                0nat
            } else {
                1
            }
        } else {
            !self.to_drop && self.dropped == 0
        }
    }

    /// The object after a sequence of steps.
    pub open spec fn after_all(self, steps: Seq<Step>) -> Shared
        decreases steps.len(),
    {
        if steps.len() == 0 {
            self
        } else {
            self.after_all(steps.drop_last()).after(steps.last())
        }
    }

    /// Whether the steps of a sequence can come one after the other.
    pub open spec fn enabled_all(self, steps: Seq<Step>) -> bool
        decreases steps.len(),
    {
        steps.len() == 0 || self.enabled_all(steps.drop_last()) && self.after_all(
            steps.drop_last(),
        ).enabled(steps.last())
    }

    /// Whether no thread is in the middle of anything.
    pub open spec fn quiet(self) -> bool {
        !self.to_queue && !self.in_queue && !self.merging && !self.to_unown && !self.to_drop
    }
}

/// The steps do to the two words what the operations on a reference count do, by the
/// owner or by a thread `other` that does not release in the biased word.
pub proof fn lemma_steps_are_operations(s: Shared, other: Option<ShortThreadId>)
    requires
        s.wf(),
    ensures
        ({
            let counts = s.counts();
            let owner = s.biased.owner_id;
            &&& s.enabled(Step::OwnerClone) ==> s.after(Step::OwnerClone).counts()
                == counts.incremented(owner)
            &&& s.after(Step::Clone).counts() == counts.shared_incremented()
            &&& s.after(Step::Upgrade).counts() == counts.shared_incremented()
            &&& s.enabled(Step::OwnerRelease) ==> s.after(Step::OwnerRelease).counts()
                == counts.decremented(owner) && !counts.decrement_drops(owner)
            &&& s.enabled(Step::OwnerLastRelease) ==> {
                let after = s.after(Step::OwnerLastRelease);
                &&& after.after(Step::Unown).counts() == counts.decremented(owner)
                &&& after.to_drop == counts.decrement_drops(owner)
            }
            &&& s.enabled(Step::Release) && !counts.releases_biased(other) ==> {
                let after = s.after(Step::Release);
                &&& after.counts() == counts.decremented(other)
                &&& after.to_queue == (s.to_queue || counts.decrement_queues(other))
                &&& after.to_drop == counts.decrement_drops(other)
            }
            &&& s.enabled(Step::Merge) ==> {
                let after = s.after(Step::Merge);
                &&& after.after(Step::Unown).counts() == counts.merged()
                &&& after.to_drop == counts.merged().dead()
            }
        }),
{
}

/// Every step keeps the counts right.
pub proof fn lemma_step(s: Shared, step: Step)
    requires
        s.wf(),
        s.enabled(step),
    ensures
        s.after(step).wf(),
{
}

/// However the steps of the threads follow one another, the counts stay right.
pub proof fn lemma_steps(biased: BiasedWord, steps: Seq<Step>)
    requires
        biased.wf(),
        biased.owner_id is Some,
        biased.biased_count == 1,
        Shared::initial(biased).enabled_all(steps),
    ensures
        Shared::initial(biased).after_all(steps).wf(),
    decreases steps.len(),
{
    if steps.len() > 0 {
        lemma_steps(biased, steps.drop_last());
        lemma_step(Shared::initial(biased).after_all(steps.drop_last()), steps.last());
    }
}

/// The value is dropped at most once, and never while a reference is held.
pub proof fn lemma_dropped_once(s: Shared)
    requires
        s.wf(),
    ensures
        s.dropped <= 1,
        s.held >= 1 ==> s.dropped == 0 && !s.to_drop,
        s.to_drop ==> s.dropped == 0,
{
}

/// Once no reference is held and every thread has finished what it began, the value
/// was dropped.
pub proof fn lemma_dropped_in_the_end(s: Shared)
    requires
        s.wf(),
        s.held == 0,
        s.quiet(),
    ensures
        s.dropped == 1,
{
}

/// A thread that queues the object finds an owner in the biased word. A thread that
/// merges the counts finds the owner there and the counts not merged yet, and the
/// sum fits in the shared counter and is not negative.
pub proof fn lemma_never_corrupt(s: Shared)
    requires
        s.wf(),
    ensures
        s.to_queue ==> s.biased.owner_id is Some,
        s.merging ==> {
            &&& s.biased.owner_id is Some
            &&& !s.shared.merged
            &&& fits_i62(s.shared.shared_count.count + s.biased.biased_count)
            &&& s.shared.shared_count.count + s.biased.biased_count >= 0
        },
        s.shared.merged ==> s.shared.shared_count.count >= 0,
{
}

/// Any reference that is held can be released without the shared counter running
/// out of its range.
pub proof fn lemma_release_fits(s: Shared)
    requires
        s.wf(),
        s.held >= 1,
    ensures
        fits_i62(s.shared.shared_count.count - 1),
{
}

/// The weak count of one object in the middle of whatever the threads do with it.
pub struct WeakShared {
    pub weak_count: u32,
    /// The number of weak references.
    pub weak: nat,
    /// The number of strong references.
    pub strong: nat,
    /// The weak reference that all strong references share is not released yet.
    pub implicit: bool,
    /// A thread with a strong reference has locked the weak count.
    pub locked: bool,
    /// How many times the memory was freed.
    pub freed: nat,
}

/// What a thread does next to the weak count.
pub enum WeakStep {
    /// A strong reference is taken from a strong one.
    Clone,
    /// A strong reference is released. The thread that has locked the weak count
    /// keeps its own.
    Release,
    /// A weak reference is taken from a strong one.
    Downgrade,
    /// A weak reference is taken from a weak one.
    CloneWeak,
    /// A weak reference is released.
    DropWeak,
    /// The weak reference that the strong ones shared is released.
    DropImplicit,
    /// The weak count is locked, to find out whether a strong reference is the only
    /// reference.
    Lock,
    /// The weak count is unlocked.
    Unlock,
}

impl WeakShared {
    /// A new object with one strong reference.
    pub open spec fn initial() -> WeakShared {
        WeakShared {
            weak_count: 1,
            weak: 0,
            strong: 1,
            implicit: true,
            locked: false,
            freed: 0,
        }
    }

    /// Whether a step can come next. A count that has overflowed ends the program.
    pub open spec fn enabled(self, step: WeakStep) -> bool {
        match step {
            WeakStep::Clone => self.strong >= 1,
            WeakStep::Release => self.strong >= 1 && (self.locked ==> self.strong >= 2),
            WeakStep::Downgrade => self.strong >= 1 && self.weak_count <= WEAK_OVERFLOW_THRESHOLD,
            WeakStep::CloneWeak => self.weak >= 1 && self.weak_count <= WEAK_OVERFLOW_THRESHOLD,
            WeakStep::DropWeak => self.weak >= 1,
            WeakStep::DropImplicit => self.strong == 0 && self.implicit,
            WeakStep::Lock => self.strong >= 1 && self.weak_count == 1,
            WeakStep::Unlock => self.locked,
        }
    }

    /// The count after one weak reference was released from it.
    pub open spec fn released(self) -> WeakShared {
        WeakShared {
            weak_count: (self.weak_count - 1) as u32,
            freed: if self.weak_count == 1 {
                self.freed + 1
            } else {
                self.freed
            },
            ..self
        }
    }

    /// What a step leaves behind.
    pub open spec fn after(self, step: WeakStep) -> WeakShared {
        match step {
            WeakStep::Clone => WeakShared { strong: self.strong + 1, ..self },
            WeakStep::Release => WeakShared { strong: (self.strong - 1) as nat, ..self },
            WeakStep::Downgrade | WeakStep::CloneWeak => WeakShared {
                weak_count: (self.weak_count + 1) as u32,
                weak: self.weak + 1,
                ..self
            },
            WeakStep::DropWeak => WeakShared { weak: (self.weak - 1) as nat, ..self.released() },
            WeakStep::DropImplicit => WeakShared { implicit: false, ..self.released() },
            WeakStep::Lock => WeakShared { weak_count: WEAK_LOCKED_COUNT, locked: true, ..self },
            WeakStep::Unlock => WeakShared { weak_count: 1, locked: false, ..self },
        }
    }

    /// What holds between any two steps.
    pub open spec fn wf(self) -> bool {
        &&& self.strong >= 1 ==> self.implicit
        &&& if self.locked {
            self.weak_count == WEAK_LOCKED_COUNT && self.weak == 0 && self.strong >= 1
        } else {
            &&& self.weak_count == self.weak + if self.implicit {
                1nat
            } else {
                0
            }
            &&& self.weak_count <= WEAK_OVERFLOW_THRESHOLD + 1
        }
        &&& self.freed == if self.weak_count == 0 {
            1nat
        } else {
            0
        }
    }
}

/// Every step keeps the weak count right.
pub proof fn lemma_weak_step(s: WeakShared, step: WeakStep)
    requires
        s.wf(),
        s.enabled(step),
    ensures
        s.after(step).wf(),
{
}

/// The steps do to the weak count what the operations on it do.
pub proof fn lemma_weak_steps_are_operations(s: WeakShared)
    requires
        s.wf(),
    ensures
        s.strong >= 1 ==> (s.enabled(WeakStep::Downgrade) <==> downgraded_count(
            s.weak_count,
        ) is Store),
        s.enabled(WeakStep::Downgrade) ==> downgraded_count(s.weak_count) == Downgrade::Store(
            s.after(WeakStep::Downgrade).weak_count,
        ),
        s.weak >= 1 ==> (s.enabled(WeakStep::CloneWeak) <==> cloned_weak_count(
            s.weak_count,
        ) is Ok),
        s.enabled(WeakStep::CloneWeak) ==> cloned_weak_count(s.weak_count) == Ok::<u32, FatalError>(
            s.after(WeakStep::CloneWeak).weak_count,
        ),
        s.enabled(WeakStep::DropWeak) ==> (s.after(WeakStep::DropWeak).freed == s.freed + 1
            <==> s.weak_count == 1),
        s.enabled(WeakStep::DropImplicit) ==> (s.after(WeakStep::DropImplicit).freed == s.freed
            + 1 <==> s.weak_count == 1),
        s.locked ==> downgraded_count(s.weak_count) is Locked,
{
}

/// A new object has its weak count right.
pub proof fn lemma_weak_initial()
    ensures
        WeakShared::initial().wf(),
{
}

/// The memory is freed at most once, and never while there is a reference of any
/// kind.
pub proof fn lemma_freed_once(s: WeakShared)
    requires
        s.wf(),
    ensures
        s.freed <= 1,
        s.strong >= 1 || s.weak >= 1 ==> s.freed == 0,
        s.strong == 0 && s.weak == 0 && !s.implicit ==> s.freed == 1,
{
}

/// While the weak count is locked there is no weak reference. A thread that then
/// finds one strong reference has the only reference of any kind.
pub proof fn lemma_lock_excludes_weak(s: WeakShared)
    requires
        s.wf(),
        s.locked,
    ensures
        s.weak == 0,
        s.strong >= 1,
        !s.enabled(WeakStep::Downgrade),
        !s.enabled(WeakStep::CloneWeak),
        !s.enabled(WeakStep::DropWeak),
        !s.enabled(WeakStep::DropImplicit),
        !s.enabled(WeakStep::Lock),
{
}

/// How far a thread is that collects.
pub enum Collecting {
    /// It does not collect.
    Idle,
    /// It takes objects from its queue.
    Processing,
    /// It has found its queue empty.
    Emptied,
    /// It has set its flag back, and is about to look at its queue again.
    Marked,
}

/// The queue of one thread in the middle of whatever the threads do with it.
pub struct QueueShared {
    /// The number of objects in the queue.
    pub len: nat,
    /// The flag of the thread.
    pub flag: ThreadStateFlag,
    /// How many threads have queued an object and have not set the flag yet.
    pub to_flag: nat,
    pub collecting: Collecting,
}

/// What a thread does next to the queue of one thread.
pub enum QueueStep {
    /// An object is queued.
    Push,
    /// A thread that has queued an object sets the flag.
    Flag,
    /// The thread begins to collect.
    Begin,
    /// The thread takes an object from its queue.
    Pop,
    /// The thread finds its queue empty.
    FindEmpty,
    /// The thread sets its flag back.
    Mark,
    /// The thread looks at its queue again, and goes on where it is not empty.
    Recheck,
}

impl QueueShared {
    /// Whether a step can come next.
    pub open spec fn enabled(self, step: QueueStep) -> bool {
        match step {
            QueueStep::Push => true,
            QueueStep::Flag => self.to_flag >= 1,
            QueueStep::Begin => self.collecting is Idle,
            QueueStep::Pop => self.collecting is Processing && self.len >= 1,
            QueueStep::FindEmpty => self.collecting is Processing && self.len == 0,
            QueueStep::Mark => self.collecting is Emptied,
            QueueStep::Recheck => self.collecting is Marked,
        }
    }

    /// What a step leaves behind.
    pub open spec fn after(self, step: QueueStep) -> QueueShared {
        match step {
            QueueStep::Push => QueueShared {
                len: self.len + 1,
                to_flag: self.to_flag + 1,
                ..self
            },
            QueueStep::Flag => QueueShared {
                to_flag: (self.to_flag - 1) as nat,
                flag: self.flag.pushed(),
                ..self
            },
            QueueStep::Begin => QueueShared { collecting: Collecting::Processing, ..self },
            QueueStep::Pop => QueueShared { len: (self.len - 1) as nat, ..self },
            QueueStep::FindEmpty => QueueShared { collecting: Collecting::Emptied, ..self },
            QueueStep::Mark => QueueShared {
                flag: self.flag.processed(),
                collecting: Collecting::Marked,
                ..self
            },
            QueueStep::Recheck => QueueShared {
                collecting: if self.len == 0 {
                    Collecting::Idle
                } else {
                    Collecting::Processing
                },
                ..self
            },
        }
    }

    /// Whether the thread is told of the objects in its queue: while it lives and does
    /// not collect, its flag says so, or is about to.
    pub open spec fn wf(self) -> bool {
        &&& self.flag.live()
        &&& self.collecting is Idle && self.len > 0 ==> self.flag is QueuedObjects || self.to_flag
            >= 1
    }
}

/// No thread misses an object in its queue, however the threads that queue objects
/// and the collecting thread get in one another's way.
pub proof fn lemma_queue_step(s: QueueShared, step: QueueStep)
    requires
        s.wf(),
        s.enabled(step),
    ensures
        s.after(step).wf(),
{
}

} // verus!
