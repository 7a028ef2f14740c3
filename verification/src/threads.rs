//! The threads that take part in biased reference counting.
//!
//! Every thread has some thread-local state. A thread that is registered also
//! has some shared state, through which other threads reach it: a flag and the
//! queue of the objects whose counts it is asked to merge.
use crate::registry::{
    entry_at, queue_contents, queue_is_empty, queue_new, queue_pop, queue_push, thread_entries,
    threads_get, threads_new, threads_push,
};
use crate::thread_id::{ShortThreadId, ThreadIdOverflowError, UniqueThreadId};
use crossbeam_queue::SegQueue;
use vstd::pervasive::unreached;
use vstd::prelude::*;

verus! {

/// The state of a registered thread, as other threads see it.
#[derive(Copy, Clone, Debug, PartialEq, Eq, Structural)]
pub enum ThreadStateFlag {
    /// The thread is alive and has no queued objects.
    Live,
    /// The thread is alive and has queued objects.
    QueuedObjects,
    /// The thread is executing its destructor.
    Dying,
    /// The thread has finished executing its destructor.
    Dead,
}

impl ThreadStateFlag {
    pub open spec fn live(self) -> bool {
        self is Live || self is QueuedObjects
    }

    /// The flag after an object was queued: only a live thread is told.
    pub open spec fn pushed(self) -> Self {
        if self is Live {
            ThreadStateFlag::QueuedObjects
        } else {
            self
        }
    }

    /// The flag after the queue was processed.
    pub open spec fn processed(self) -> Self {
        if self is QueuedObjects {
            ThreadStateFlag::Live
        } else {
            self
        }
    }

    /// Whether the thread is alive.
    pub fn is_live(self) -> (r: bool)
        ensures
            r == self.live(),
    {
        match self {
            ThreadStateFlag::Live | ThreadStateFlag::QueuedObjects => true,
            ThreadStateFlag::Dying | ThreadStateFlag::Dead => false,
        }
    }

    /// Whether the thread is executing its destructor or has done so.
    pub fn is_dead_or_dying(self) -> (r: bool)
        ensures
            r == !self.live(),
    {
        !self.is_live()
    }

    /// Whether the thread should look at its queue.
    pub fn needs_collect(self) -> (r: bool)
        ensures
            r == !(self is Live),
    {
        match self {
            ThreadStateFlag::Live => false,
            _ => true,
        }
    }

    /// The flag after an object was queued: only a live thread is told.
    pub fn after_push(self) -> (r: Self)
        ensures
            r == self.pushed(),
    {
        match self {
            ThreadStateFlag::Live => ThreadStateFlag::QueuedObjects,
            other => other,
        }
    }

    /// The flag after the queue was processed.
    pub fn after_process(self) -> (r: Self)
        ensures
            r == self.processed(),
    {
        match self {
            ThreadStateFlag::QueuedObjects => ThreadStateFlag::Live,
            other => other,
        }
    }
}

/// Why a thread could not be registered.
#[derive(Copy, Clone, Debug, PartialEq, Eq, Structural)]
pub enum ThreadStateInitError {
    /// The thread has already died.
    AlreadyDied,
    /// There are no short identifiers left.
    IdOverflow(ThreadIdOverflowError),
}

/// Why the state of the current thread could not be accessed.
#[derive(Copy, Clone, Debug, PartialEq, Eq, Structural)]
pub enum LocalThreadAccessError {
    /// The thread has not been registered yet.
    Uninitialized,
    /// The thread is dead or dying.
    Dead,
    /// The thread cannot take part in biased reference counting.
    IdOverflow(ThreadIdOverflowError),
}

/// How far a thread is in its life.
#[derive(Copy, Clone, Debug, PartialEq, Eq, Structural)]
pub enum LocalThreadStatus {
    /// The thread is dead or being destroyed.
    DeadOrDying,
    /// The thread is not registered, either because it has not been needed yet
    /// or because there was no identifier for it.
    Uninit,
    /// The thread is registered.
    Active,
}

/// Whether a thread that has the given status and is not registered can be, and why
/// not: it has died, or there are no short identifiers left.
pub fn may_register(status: LocalThreadStatus, exhausted: bool) -> (r: Result<
    (),
    ThreadStateInitError,
>)
    requires
        !(status is Active),
    ensures
        r == if status is DeadOrDying {
            Err(ThreadStateInitError::AlreadyDied)
        } else if exhausted {
            Err(ThreadStateInitError::IdOverflow(ThreadIdOverflowError))
        } else {
            Ok(())
        },
{
    match status {
        LocalThreadStatus::DeadOrDying => Err(ThreadStateInitError::AlreadyDied),
        LocalThreadStatus::Active => unreached(),
        LocalThreadStatus::Uninit => {
            if exhausted {
                Err(ThreadStateInitError::IdOverflow(ThreadIdOverflowError))
            } else {
                Ok(())
            }
        },
    }
}

/// The queue of the objects whose counts a thread is asked to merge.
///
/// An object is named by the address of its value.
#[derive(Debug)]
pub struct ObjectQueue {
    short_id: ShortThreadId,
    inner: SegQueue<usize>,
}

impl View for ObjectQueue {
    type V = Seq<usize>;

    closed spec fn view(&self) -> Seq<usize> {
        queue_contents(self.inner)
    }
}

impl ObjectQueue {
    /// The thread that the objects are queued for.
    pub closed spec fn owner(self) -> ShortThreadId {
        self.short_id
    }

    /// Creates an empty queue for a thread.
    pub fn new(short_id: ShortThreadId) -> (r: ObjectQueue)
        ensures
            r.owner() == short_id,
            r@ == Seq::<usize>::empty(),
    {
        ObjectQueue { short_id, inner: queue_new() }
    }

    /// The thread that the objects are queued for.
    pub fn short_id(&self) -> (r: ShortThreadId)
        ensures
            r == self.owner(),
    {
        self.short_id
    }

    /// Adds an object at the end of the queue.
    pub fn push(&mut self, object: usize)
        ensures
            final(self)@ == old(self)@.push(object),
            final(self).owner() == old(self).owner(),
    {
        queue_push(&mut self.inner, object);
    }

    /// Removes the object at the front of the queue.
    pub fn pop(&mut self) -> (r: Option<usize>)
        ensures
            final(self).owner() == old(self).owner(),
            old(self)@.len() == 0 ==> r is None && final(self)@ == old(self)@,
            old(self)@.len() > 0 ==> r == Some(old(self)@[0]) && final(self)@ == old(
                self,
            )@.drop_first(),
    {
        queue_pop(&mut self.inner)
    }

    /// Whether no object is queued.
    pub fn is_empty(&self) -> (r: bool)
        ensures
            r == (self@.len() == 0),
    {
        queue_is_empty(&self.inner)
    }
}

/// What a registered thread keeps for itself.
#[derive(Copy, Clone, Debug, PartialEq, Eq, Structural)]
pub struct LocalThreadState {
    /// The index of the shared state of the thread.
    pub shared_info: usize,
    pub short_id: ShortThreadId,
}

impl LocalThreadState {
    /// The short identifier of the thread.
    pub fn short_id(&self) -> (r: ShortThreadId)
        ensures
            r == self.short_id,
    {
        self.short_id
    }
}

/// What a thread can read of its state without initialising it.
#[derive(Copy, Clone, Debug, PartialEq, Eq, Structural)]
pub struct LocalThreadStateFast {
    pub status: LocalThreadStatus,
    pub short_id: Option<ShortThreadId>,
    /// The index of the shared state whose flag tells whether to collect, or
    /// `None` for a flag that always says [`ThreadStateFlag::Dying`].
    pub shared_state_flag: Option<usize>,
}

impl LocalThreadStateFast {
    /// The state that a new thread starts with.
    pub open spec fn fresh() -> Self {
        LocalThreadStateFast {
            status: LocalThreadStatus::Uninit,
            short_id: None,
            shared_state_flag: None,
        }
    }

    /// The state once the thread is being destroyed.
    pub open spec fn dead() -> Self {
        LocalThreadStateFast {
            status: LocalThreadStatus::DeadOrDying,
            short_id: None,
            shared_state_flag: None,
        }
    }

    /// The state once the thread is registered.
    pub open spec fn active(state: LocalThreadState) -> Self {
        LocalThreadStateFast {
            status: LocalThreadStatus::Active,
            short_id: Some(state.short_id),
            shared_state_flag: Some(state.shared_info),
        }
    }
}

/// The lazily initialised state of a thread.
#[derive(Copy, Clone, Debug)]
pub enum LazyState {
    /// Not initialised yet.
    Unset,
    /// Initialised, successfully or not.
    Ready(Result<LocalThreadState, ThreadStateInitError>),
    /// Destroyed at the end of the thread.
    Destroyed,
}

/// The thread-local state of one thread.
#[derive(Copy, Clone, Debug)]
pub struct ThreadLocal {
    pub fast: LocalThreadStateFast,
    pub slow: LazyState,
    /// Whether the thread is unwinding from a panic.
    pub panicking: bool,
}

impl ThreadLocal {
    /// The state that a new thread starts with.
    pub open spec fn fresh() -> Self {
        ThreadLocal {
            fast: LocalThreadStateFast::fresh(),
            slow: LazyState::Unset,
            panicking: false,
        }
    }

    /// The registered state of the thread, if it has one.
    pub open spec fn state(self) -> Option<LocalThreadState> {
        match self.slow {
            LazyState::Ready(Ok(state)) => Some(state),
            _ => None,
        }
    }

    /// The two parts of the state agree.
    pub open spec fn wf(self) -> bool {
        match self.slow {
            LazyState::Unset => self.fast == LocalThreadStateFast::dead() || self.fast
                == LocalThreadStateFast::fresh(),
            LazyState::Ready(Ok(state)) => self.fast == LocalThreadStateFast::active(state),
            LazyState::Ready(Err(ThreadStateInitError::IdOverflow(_))) => self.fast
                == LocalThreadStateFast::fresh(),
            LazyState::Ready(Err(ThreadStateInitError::AlreadyDied)) => self.fast
                == LocalThreadStateFast::dead(),
            LazyState::Destroyed => self.fast == LocalThreadStateFast::dead() || self.fast
                == LocalThreadStateFast::fresh(),
        }
    }
}

/// What other threads can reach of a registered thread.
///
/// It is never destroyed, because objects can refer to the thread even after
/// its death.
#[derive(Debug)]
pub struct SharedThreadInfo {
    id: UniqueThreadId,
    short_id: ShortThreadId,
    state_flag: ThreadStateFlag,
    /// The queue of the thread, for as long as the thread keeps it alive.
    queued_objects: Option<ObjectQueue>,
    /// The thread whose state this is.
    thread: usize,
}

/// The contents of a [`SharedThreadInfo`].
pub struct InfoView {
    pub short_id: ShortThreadId,
    pub flag: ThreadStateFlag,
    pub queue: Option<Seq<usize>>,
    /// The thread whose state this is.
    pub thread: nat,
}

impl InfoView {
    /// A thread has a queue exactly while it is alive, and its flag tells
    /// whether the queue holds anything.
    pub open spec fn wf(self) -> bool {
        match self.queue {
            Some(queue) => self.flag == if queue.len() == 0 {
                ThreadStateFlag::Live
            } else {
                ThreadStateFlag::QueuedObjects
            },
            None => self.flag is Dead,
        }
    }

    /// The objects that wait for the thread.
    pub open spec fn objects(self) -> Seq<usize> {
        match self.queue {
            Some(queue) => queue,
            None => Seq::empty(),
        }
    }
}

impl View for SharedThreadInfo {
    type V = InfoView;

    closed spec fn view(&self) -> InfoView {
        InfoView {
            short_id: self.short_id,
            flag: self.state_flag,
            queue: match self.queued_objects {
                Some(queue) => Some(queue@),
                None => None,
            },
            thread: self.thread as nat,
        }
    }
}

impl SharedThreadInfo {
    closed spec fn wf(self) -> bool {
        &&& self.id.id == self.short_id.id
        &&& self.queued_objects matches Some(queue) ==> queue.owner() == self.short_id
    }
}

/// All threads: the thread-local state of each, the shared state of those that
/// are registered, and which of them is running.
#[derive(Debug)]
pub struct ThreadTable {
    /// Whether there are no short identifiers left.
    exhausted: bool,
    threads: boxcar::Vec<u16>,
    infos: Vec<SharedThreadInfo>,
    locals: Vec<ThreadLocal>,
    current: usize,
}

/// The contents of a [`ThreadTable`].
pub struct ThreadsView {
    pub exhausted: bool,
    pub infos: Seq<InfoView>,
    pub locals: Seq<ThreadLocal>,
    pub current: int,
}

impl ThreadsView {
    pub open spec fn wf(self) -> bool {
        &&& self.infos.len() <= ShortThreadId::MAX
        &&& self.exhausted ==> self.infos.len() == ShortThreadId::MAX
        &&& 0 <= self.current < self.locals.len()
        &&& forall|i: int| 0 <= i < self.infos.len() ==> self.info_ok(i)
        &&& forall|k: int| 0 <= k < self.locals.len() ==> self.local_ok(k)
    }

    /// The shared state at `i` belongs to the thread with the identifier `i + 1`,
    /// which is registered there for as long as it lives.
    pub open spec fn info_ok(self, i: int) -> bool {
        let info = #[trigger] self.infos[i];
        &&& info.wf()
        &&& info.short_id.id == i + 1
        &&& info.queue is Some ==> {
            &&& info.thread < self.locals.len()
            &&& self.locals[info.thread as int].state() matches Some(state)
            &&& state.shared_info == i
        }
    }

    /// A registered thread is alive and refers to its own shared state.
    pub open spec fn local_ok(self, k: int) -> bool {
        let local = #[trigger] self.locals[k];
        &&& local.wf()
        &&& local.state() matches Some(state) ==> {
            &&& state.short_id.wf()
            &&& state.shared_info == state.short_id.id - 1
            &&& state.shared_info < self.infos.len()
            &&& self.infos[state.shared_info as int].queue is Some
            &&& self.infos[state.shared_info as int].thread == k
        }
    }

    /// The thread that is running.
    pub open spec fn this(self) -> ThreadLocal {
        self.locals[self.current]
    }

    /// The identifier of the running thread, if it is registered.
    pub open spec fn this_id(self) -> Option<ShortThreadId> {
        self.this().fast.short_id
    }

    /// The threads after the running one began or stopped to unwind.
    pub open spec fn with_panicking(self, panicking: bool) -> ThreadsView {
        ThreadsView {
            locals: self.locals.update(self.current, ThreadLocal { panicking, ..self.this() }),
            ..self
        }
    }

    /// The threads after the running one was registered.
    pub open spec fn registered(self) -> ThreadsView {
        let state = LocalThreadState {
            shared_info: self.infos.len() as usize,
            short_id: ShortThreadId { id: (self.infos.len() + 1) as u16 },
        };
        ThreadsView {
            infos: self.infos.push(
                InfoView {
                    short_id: state.short_id,
                    flag: ThreadStateFlag::Live,
                    queue: Some(Seq::empty()),
                    thread: self.current as nat,
                },
            ),
            locals: self.locals.update(
                self.current,
                ThreadLocal {
                    fast: LocalThreadStateFast::active(state),
                    slow: LazyState::Ready(Ok(state)),
                    ..self.this()
                },
            ),
            ..self
        }
    }

    /// The threads after the running one was refused for want of an identifier.
    pub open spec fn refused(self) -> ThreadsView {
        ThreadsView {
            exhausted: true,
            locals: self.locals.update(
                self.current,
                ThreadLocal {
                    slow: LazyState::Ready(
                        Err(ThreadStateInitError::IdOverflow(ThreadIdOverflowError)),
                    ),
                    ..self.this()
                },
            ),
            ..self
        }
    }

    /// The threads after the running one was refused for having died before.
    pub open spec fn buried(self) -> ThreadsView {
        ThreadsView {
            locals: self.locals.update(
                self.current,
                ThreadLocal {
                    slow: LazyState::Ready(Err(ThreadStateInitError::AlreadyDied)),
                    ..self.this()
                },
            ),
            ..self
        }
    }

    /// The threads after the destroyed state of the running one was made anew.
    pub open spec fn revived(self) -> ThreadsView {
        ThreadsView {
            locals: self.locals.update(
                self.current,
                ThreadLocal {
                    slow: if self.this().slow is Destroyed {
                        LazyState::Unset
                    } else {
                        self.this().slow
                    },
                    ..self.this()
                },
            ),
            ..self
        }
    }

    /// The threads after the running one has made sure that its state is
    /// initialised.
    pub open spec fn initialised(self) -> ThreadsView {
        if !(self.this().slow is Unset) {
            self
        } else if self.this().fast.status is DeadOrDying {
            self.buried()
        } else if self.infos.len() < ShortThreadId::MAX {
            self.registered()
        } else {
            self.refused()
        }
    }

    /// The threads after the running one has looked for its identifier, which it
    /// gets on first use. A thread that has died does not initialise its state for
    /// that.
    pub open spec fn identified(self) -> ThreadsView {
        if self.this().fast.status is DeadOrDying {
            self
        } else {
            self.initialised()
        }
    }

    /// What the running thread finds as its state once it has been initialised.
    pub open spec fn access(self) -> Result<LocalThreadState, LocalThreadAccessError> {
        match self.this().slow {
            LazyState::Ready(Ok(state)) => Ok(state),
            LazyState::Ready(Err(ThreadStateInitError::IdOverflow(e))) => Err(
                LocalThreadAccessError::IdOverflow(e),
            ),
            _ => Err(LocalThreadAccessError::Dead),
        }
    }

    /// The threads with another queue and flag of the shared state at `i`.
    pub open spec fn with_queue(
        self,
        i: int,
        queue: Option<Seq<usize>>,
        flag: ThreadStateFlag,
    ) -> ThreadsView {
        ThreadsView {
            infos: self.infos.update(i, InfoView { queue, flag, ..self.infos[i] }),
            ..self
        }
    }

    /// The threads after an object was queued for the thread at `i`.
    pub open spec fn pushed(self, i: int, object: usize) -> ThreadsView {
        self.with_queue(
            i,
            Some(self.infos[i].objects().push(object)),
            ThreadStateFlag::QueuedObjects,
        )
    }

    /// The threads after the running one has emptied its queue.
    pub open spec fn emptied(self) -> ThreadsView {
        match self.this().state() {
            Some(state) => self.with_queue(
                state.shared_info as int,
                Some(Seq::empty()),
                ThreadStateFlag::Live,
            ),
            None => self,
        }
    }

    /// The threads after the running one has ended.
    pub open spec fn ended(self) -> ThreadsView {
        let dead = ThreadsView {
            locals: self.locals.update(
                self.current,
                ThreadLocal {
                    fast: if self.this().state() is Some {
                        LocalThreadStateFast::dead()
                    } else {
                        self.this().fast
                    },
                    slow: LazyState::Destroyed,
                    ..self.this()
                },
            ),
            ..self
        };
        match self.this().state() {
            Some(state) => dead.with_queue(
                state.shared_info as int,
                None,
                ThreadStateFlag::Dead,
            ),
            None => dead,
        }
    }

    /// The objects that wait for the running thread.
    pub open spec fn own_queue(self) -> Seq<usize> {
        match self.this().state() {
            Some(state) => self.infos[state.shared_info as int].objects(),
            None => Seq::empty(),
        }
    }
}

impl View for ThreadTable {
    type V = ThreadsView;

    closed spec fn view(&self) -> ThreadsView {
        ThreadsView {
            exhausted: self.exhausted,
            infos: Seq::new(self.infos@.len(), |i: int| self.infos@[i]@),
            locals: self.locals@,
            current: self.current as int,
        }
    }
}

impl ThreadTable {
    pub open spec fn wf(self) -> bool {
        self@.wf() && self.parts_wf()
    }

    /// What ties the parts of the table together that its contents do not show.
    pub closed spec fn parts_wf(self) -> bool {
        &&& forall|i: int| 0 <= i < self.infos@.len() ==> (#[trigger] self.infos@[i]).wf()
        &&& thread_entries(self.threads).len() == self.infos@.len() + if self.exhausted {
            1int
        } else {
            0
        }
        &&& forall|i: int|
            0 <= i < thread_entries(self.threads).len() ==> #[trigger] thread_entries(
                self.threads,
            )[i] == entry_at(i)
    }

    /// The table of a process whose only thread is running and not registered.
    pub fn new() -> (r: Self)
        ensures
            r.wf(),
            r@.infos == Seq::<InfoView>::empty(),
            r@.locals == seq![ThreadLocal::fresh()],
            r@.current == 0,
            !r@.exhausted,
    {
        let mut locals: Vec<ThreadLocal> = Vec::new();
        locals.push(fresh_thread());
        let r = ThreadTable {
            exhausted: false,
            threads: threads_new(),
            infos: Vec::new(),
            locals,
            current: 0,
        };
        assert(r@.infos =~= Seq::<InfoView>::empty());
        assert(r@.locals =~= seq![ThreadLocal::fresh()]);
        r
    }

    /// Starts a thread, which is not running yet, and returns its index.
    pub fn spawn(&mut self) -> (r: usize)
        requires
            old(self).wf(),
        ensures
            final(self).wf(),
            r == old(self)@.locals.len(),
            final(self)@ == (ThreadsView {
                locals: old(self)@.locals.push(ThreadLocal::fresh()),
                ..old(self)@
            }),
    {
        let index = self.locals.len();
        self.locals.push(fresh_thread());
        proof {
            assert(self@.infos =~= old(self)@.infos);
            assert forall|i: int| 0 <= i < self@.infos.len() implies self@.info_ok(i) by {
                assert(old(self)@.info_ok(i));
            }
            assert forall|k: int| 0 <= k < self@.locals.len() implies self@.local_ok(k) by {
                if k < old(self)@.locals.len() {
                    assert(old(self)@.local_ok(k));
                }
            }
        }
        index
    }

    /// Lets another thread run.
    pub fn enter(&mut self, thread: usize)
        requires
            old(self).wf(),
            thread < old(self)@.locals.len(),
        ensures
            final(self).wf(),
            final(self)@ == (ThreadsView { current: thread as int, ..old(self)@ }),
    {
        self.current = thread;
        proof {
            assert(self@.infos =~= old(self)@.infos);
            assert forall|i: int| 0 <= i < self@.infos.len() implies self@.info_ok(i) by {
                assert(old(self)@.info_ok(i));
            }
            assert forall|k: int| 0 <= k < self@.locals.len() implies self@.local_ok(k) by {
                assert(old(self)@.local_ok(k));
            }
        }
    }

    /// The thread that is running.
    pub fn current(&self) -> (r: usize)
        ensures
            r == self@.current,
    {
        self.current
    }

    /// Whether the running thread is unwinding from a panic.
    pub fn panicking(&self) -> (r: bool)
        requires
            self.wf(),
        ensures
            r == self@.this().panicking,
    {
        self.locals[self.current].panicking
    }

    /// Notes that the running thread began or stopped to unwind.
    pub fn set_panicking(&mut self, panicking: bool)
        requires
            old(self).wf(),
        ensures
            final(self).wf(),
            final(self)@ == old(self)@.with_panicking(panicking),
    {
        let ghost before = self@;
        let current = self.current;
        let mut local = self.locals[current];
        local.panicking = panicking;
        self.locals.set(current, local);
        proof {
            assert(self@.infos =~= before.infos);
            assert(before.local_ok(before.current));
            assert forall|i: int| 0 <= i < self@.infos.len() implies self@.info_ok(i) by {
                assert(before.info_ok(i));
            }
            assert forall|k: int| 0 <= k < self@.locals.len() implies self@.local_ok(k) by {
                assert(before.local_ok(k));
            }
        }
    }

    /// Makes the destroyed state of the running thread anew, which is then
    /// initialised on its next use.
    pub fn revive(&mut self)
        requires
            old(self).wf(),
        ensures
            final(self).wf(),
            final(self)@ == old(self)@.revived(),
    {
        let ghost before = self@;
        let current = self.current;
        let mut local = self.locals[current];
        local.slow = match local.slow {
            LazyState::Destroyed => LazyState::Unset,
            slow => slow,
        };
        self.locals.set(current, local);
        proof {
            assert(self@.infos =~= before.infos);
            lemma_revived(before);
        }
    }

    /// The short identifier of the running thread, without registering it.
    pub fn existing_short_id(&self) -> (r: Result<ShortThreadId, LocalThreadAccessError>)
        requires
            self.wf(),
        ensures
            match r {
                Ok(short_id) => self@.this_id() == Some(short_id) && short_id.wf(),
                Err(e) => self@.this_id() is None && e == if self@.this().fast.status is Uninit {
                    LocalThreadAccessError::Uninitialized
                } else {
                    LocalThreadAccessError::Dead
                },
            },
    {
        assert(self@.local_ok(self@.current));
        let fast = self.locals[self.current].fast;
        match (fast.status, fast.short_id) {
            (LocalThreadStatus::Active, Some(short_id)) => Ok(short_id),
            (LocalThreadStatus::Uninit, _) => Err(LocalThreadAccessError::Uninitialized),
            _ => Err(LocalThreadAccessError::Dead),
        }
    }

    /// The short identifier of the running thread, where it is registered.
    pub fn this_id(&self) -> (r: Option<ShortThreadId>)
        requires
            self.wf(),
        ensures
            r == self@.this_id(),
            r matches Some(id) ==> id.wf(),
    {
        match self.existing_short_id() {
            Ok(short_id) => Some(short_id),
            Err(_) => None,
        }
    }

    /// Whether the running thread should look at its queue. A thread that is not
    /// registered is always told to, and then finds that it has none.
    pub fn currently_needs_collect(&self) -> (r: bool)
        requires
            self.wf(),
        ensures
            r == (self@.this().state() is None || self@.own_queue().len() > 0),
    {
        assert(self@.local_ok(self@.current));
        match self.locals[self.current].fast.shared_state_flag {
            Some(index) => {
                assert(self@.info_ok(index as int));
                self.infos[index].state_flag.needs_collect()
            },
            None => ThreadStateFlag::Dying.needs_collect(),
        }
    }

    /// Registers the running thread, which has not been initialised yet.
    fn init_thread(&mut self) -> (r: Result<LocalThreadState, ThreadStateInitError>)
        requires
            old(self).wf(),
            old(self)@.this().slow is Unset,
        ensures
            final(self).wf(),
            final(self)@ == old(self)@.initialised(),
            final(self)@.this().slow == LazyState::Ready(r),
    {
        let ghost before = self@;
        assert(before.local_ok(before.current));
        let current = self.current;
        let mut local = self.locals[current];
        match may_register(local.fast.status, self.exhausted) {
            Ok(()) => {},
            Err(e) => {
                let r = Err(e);
                local.slow = LazyState::Ready(r);
                self.locals.set(current, local);
                proof {
                    assert(self@.infos =~= before.infos);
                    if before.this().fast.status is DeadOrDying {
                        assert(self@.locals =~= before.buried().locals);
                        lemma_buried(before);
                    } else {
                        assert(self@.locals =~= before.refused().locals);
                        lemma_refused(before);
                    }
                }
                return r;
            },
        }
        let index = threads_push(&mut self.threads);
        let entry = match threads_get(&self.threads, index) {
            Some(entry) => entry,
            None => unreached(),
        };
        match ShortThreadId::new(entry) {
            Some(short_id) => {
                let state = LocalThreadState { shared_info: index, short_id };
                local.fast = LocalThreadStateFast {
                    status: LocalThreadStatus::Active,
                    short_id: Some(short_id),
                    shared_state_flag: Some(index),
                };
                local.slow = LazyState::Ready(Ok(state));
                self.infos.push(
                    SharedThreadInfo {
                        id: UniqueThreadId::from_index(index),
                        short_id,
                        state_flag: ThreadStateFlag::Live,
                        queued_objects: Some(ObjectQueue::new(short_id)),
                        thread: current,
                    },
                );
                self.locals.set(current, local);
                proof {
                    assert(self@.infos =~= before.registered().infos);
                    assert(self@.locals =~= before.registered().locals);
                    lemma_registered(before);
                }
                Ok(state)
            },
            None => {
                self.exhausted = true;
                let r = Err(ThreadStateInitError::IdOverflow(ThreadIdOverflowError));
                local.slow = LazyState::Ready(r);
                self.locals.set(current, local);
                proof {
                    assert(self@.infos =~= before.infos);
                    assert(self@.locals =~= before.refused().locals);
                    lemma_refused(before);
                }
                r
            },
        }
    }

    /// The state of the running thread, which is registered on first use.
    pub fn with_current(&mut self) -> (r: Result<LocalThreadState, LocalThreadAccessError>)
        requires
            old(self).wf(),
        ensures
            final(self).wf(),
            final(self)@ == old(self)@.initialised(),
            r == final(self)@.access(),
    {
        let local = self.locals[self.current];
        let state = match local.slow {
            LazyState::Unset => self.init_thread(),
            LazyState::Ready(state) => state,
            LazyState::Destroyed => return Err(LocalThreadAccessError::Dead),
        };
        match state {
            Ok(state) => Ok(state),
            Err(ThreadStateInitError::IdOverflow(cause)) => Err(
                LocalThreadAccessError::IdOverflow(cause),
            ),
            Err(ThreadStateInitError::AlreadyDied) => Err(LocalThreadAccessError::Dead),
        }
    }
}

impl ThreadTable {
    /// The shared state of the thread with the identifier `id`, if there is such a
    /// thread.
    pub fn get_by_id(&self, id: ShortThreadId) -> (r: Option<usize>)
        requires
            self.wf(),
            id.wf(),
        ensures
            r == if id.id <= self@.infos.len() {
                Some((id.id - 1) as usize)
            } else {
                None::<usize>
            },
    {
        let index = id.index();
        match threads_get(&self.threads, index) {
            Some(entry) => {
                if entry != 0 {
                    Some(index)
                } else {
                    None
                }
            },
            None => None,
        }
    }

    /// Queues an object for the thread at `info` and tells the thread so. Returns
    /// whether the thread still had a queue; without one nothing is done.
    pub fn push_object(&mut self, info: usize, object: usize) -> (r: bool)
        requires
            old(self).wf(),
            info < old(self)@.infos.len(),
        ensures
            final(self).wf(),
            r == (old(self)@.infos[info as int].queue is Some),
            r ==> final(self)@ == old(self)@.pushed(info as int, object),
            !r ==> final(self)@ == old(self)@,
    {
        let ghost before = self@;
        assert(before.info_ok(info as int));
        let shared = &mut self.infos[info];
        match &mut shared.queued_objects {
            Some(queue) => {
                queue.push(object);
                shared.state_flag = shared.state_flag.after_push();
                proof {
                    assert(self@.infos =~= before.pushed(info as int, object).infos);
                    lemma_pushed(before, info as int, object);
                }
                true
            },
            None => {
                proof {
                    assert(self@.infos =~= before.infos);
                }
                false
            },
        }
    }

    /// The flag of the thread at `info`.
    pub fn state_flag(&self, info: usize) -> (r: ThreadStateFlag)
        requires
            info < self@.infos.len(),
        ensures
            r == self@.infos[info as int].flag,
    {
        self.infos[info].state_flag
    }

    /// The identifier of the thread at `info`.
    pub fn info_id(&self, info: usize) -> (r: ShortThreadId)
        requires
            info < self@.infos.len(),
        ensures
            r == self@.infos[info as int].short_id,
    {
        self.infos[info].short_id
    }

    /// Lends the queue of the thread at `info`, if it still has one. Until it is
    /// given back, the thread appears to have none.
    pub(crate) fn lend_queue(&mut self, info: usize) -> (r: Option<ObjectQueue>)
        requires
            old(self).parts_wf(),
            info < old(self)@.infos.len(),
        ensures
            final(self).parts_wf(),
            r is Some <==> old(self)@.infos[info as int].queue is Some,
            r matches Some(queue) ==> {
                &&& old(self)@.infos[info as int].queue == Some(queue@)
                &&& queue.owner() == old(self)@.infos[info as int].short_id
            },
            final(self)@ == old(self)@.with_queue(
                info as int,
                None,
                old(self)@.infos[info as int].flag,
            ),
    {
        let ghost before = self@;
        let shared = &mut self.infos[info];
        let r = shared.queued_objects.take();
        proof {
            assert(self@.infos =~= before.with_queue(
                info as int,
                None,
                before.infos[info as int].flag,
            ).infos);
        }
        r
    }

    /// Gives back the queue of the thread at `info` after it was processed.
    pub(crate) fn return_queue(&mut self, info: usize, queue: ObjectQueue)
        requires
            old(self).parts_wf(),
            info < old(self)@.infos.len(),
            queue.owner() == old(self)@.infos[info as int].short_id,
        ensures
            final(self).parts_wf(),
            final(self)@ == old(self)@.with_queue(
                info as int,
                Some(queue@),
                old(self)@.infos[info as int].flag.processed(),
            ),
    {
        let ghost before = self@;
        let ghost contents = queue@;
        let shared = &mut self.infos[info];
        shared.state_flag = shared.state_flag.after_process();
        shared.queued_objects = Some(queue);
        proof {
            assert(self@.infos =~= before.with_queue(
                info as int,
                Some(contents),
                before.infos[info as int].flag.processed(),
            ).infos);
        }
    }

    /// Starts to end the running thread: from now on it is no longer registered.
    /// Returns the queue that it leaves behind, if it was registered.
    pub(crate) fn begin_end(&mut self) -> (r: Option<(usize, ObjectQueue)>)
        requires
            old(self).wf(),
        ensures
            final(self).parts_wf(),
            match (r, old(self)@.this().state()) {
                (Some((info, queue)), Some(state)) => {
                    &&& info == state.shared_info
                    &&& queue@ == old(self)@.own_queue()
                    &&& queue.owner() == state.short_id
                    &&& final(self)@ == old(self)@.ended().with_queue(
                        info as int,
                        None,
                        ThreadStateFlag::Dying,
                    )
                },
                (None, None) => final(self)@ == old(self)@.ended(),
                _ => false,
            },
    {
        let ghost before = self@;
        assert(before.local_ok(before.current));
        let current = self.current;
        let mut local = self.locals[current];
        let slow = local.slow;
        local.slow = LazyState::Destroyed;
        match slow {
            LazyState::Ready(Ok(state)) => {
                assert(before.info_ok(state.shared_info as int));
                local.fast = LocalThreadStateFast {
                    status: LocalThreadStatus::DeadOrDying,
                    short_id: None,
                    shared_state_flag: None,
                };
                self.locals.set(current, local);
                let shared = &mut self.infos[state.shared_info];
                shared.state_flag = ThreadStateFlag::Dying;
                let queue = match shared.queued_objects.take() {
                    Some(queue) => queue,
                    None => unreached(),
                };
                proof {
                    let after = before.ended().with_queue(
                        state.shared_info as int,
                        None,
                        ThreadStateFlag::Dying,
                    );
                    assert(self@.infos =~= after.infos);
                    assert(self@.locals =~= after.locals);
                }
                Some((state.shared_info, queue))
            },
            _ => {
                self.locals.set(current, local);
                proof {
                    assert(self@.infos =~= before.ended().infos);
                    assert(self@.locals =~= before.ended().locals);
                }
                None
            },
        }
    }

    /// Marks the thread at `info` as dead once its queue was processed.
    pub(crate) fn finish_end(&mut self, info: usize)
        requires
            old(self).parts_wf(),
            info < old(self)@.infos.len(),
            old(self)@.infos[info as int].flag is Dying,
        ensures
            final(self).parts_wf(),
            final(self)@ == old(self)@.with_queue(
                info as int,
                old(self)@.infos[info as int].queue,
                ThreadStateFlag::Dead,
            ),
    {
        let ghost before = self@;
        let shared = &mut self.infos[info];
        shared.state_flag = ThreadStateFlag::Dead;
        proof {
            assert(self@.infos =~= before.with_queue(
                info as int,
                before.infos[info as int].queue,
                ThreadStateFlag::Dead,
            ).infos);
        }
    }
}

/// Queuing an object keeps the invariant.
pub proof fn lemma_pushed(t: ThreadsView, i: int, object: usize)
    requires
        t.wf(),
        0 <= i < t.infos.len(),
        t.infos[i].queue is Some,
    ensures
        t.pushed(i, object).wf(),
{
    let r = t.pushed(i, object);
    assert forall|j: int| 0 <= j < r.infos.len() implies r.info_ok(j) by {
        assert(t.info_ok(j));
    }
    assert forall|k: int| 0 <= k < r.locals.len() implies r.local_ok(k) by {
        assert(t.local_ok(k));
    }
}

/// Emptying a queue keeps the invariant.
pub proof fn lemma_emptied(t: ThreadsView)
    requires
        t.wf(),
    ensures
        t.emptied().wf(),
{
    let r = t.emptied();
    assert(t.local_ok(t.current));
    assert forall|j: int| 0 <= j < r.infos.len() implies r.info_ok(j) by {
        assert(t.info_ok(j));
    }
    assert forall|k: int| 0 <= k < r.locals.len() implies r.local_ok(k) by {
        assert(t.local_ok(k));
    }
}

/// Ending a thread keeps the invariant.
pub proof fn lemma_ended(t: ThreadsView)
    requires
        t.wf(),
    ensures
        t.ended().wf(),
{
    let r = t.ended();
    assert(t.local_ok(t.current));
    assert forall|j: int| 0 <= j < r.infos.len() implies r.info_ok(j) by {
        assert(t.info_ok(j));
    }
    assert forall|k: int| 0 <= k < r.locals.len() implies r.local_ok(k) by {
        assert(t.local_ok(k));
    }
}

/// Initialising the running thread keeps the invariant and leaves the queues as
/// they are.
pub proof fn lemma_initialised(t: ThreadsView)
    requires
        t.wf(),
    ensures
        t.initialised().wf(),
        t.initialised().own_queue() == t.own_queue(),
        t.initialised().current == t.current,
        t.infos.len() <= t.initialised().infos.len(),
        forall|i: int|
            0 <= i < t.infos.len() ==> #[trigger] t.initialised().infos[i] == t.infos[i],
        forall|i: int|
            t.infos.len() <= i < t.initialised().infos.len() ==> (
            #[trigger] t.initialised().infos[i]).objects() == Seq::<usize>::empty(),
{
    if t.this().slow is Unset {
        if t.this().fast.status is DeadOrDying {
            lemma_buried(t);
        } else if t.infos.len() < ShortThreadId::MAX {
            lemma_registered(t);
        } else {
            lemma_refused(t);
        }
    }
}

/// The thread-local state that a new thread starts with.
fn fresh_thread() -> (r: ThreadLocal)
    ensures
        r == ThreadLocal::fresh(),
{
    ThreadLocal {
        fast: LocalThreadStateFast {
            status: LocalThreadStatus::Uninit,
            short_id: None,
            shared_state_flag: None,
        },
        slow: LazyState::Unset,
        panicking: false,
    }
}

/// Registering a thread keeps the invariant.
proof fn lemma_registered(t: ThreadsView)
    requires
        t.wf(),
        t.this().slow is Unset,
        t.infos.len() < ShortThreadId::MAX,
    ensures
        t.registered().wf(),
{
    let r = t.registered();
    assert forall|i: int| 0 <= i < r.infos.len() implies r.info_ok(i) by {
        if i < t.infos.len() {
            assert(t.info_ok(i));
        }
    }
    assert forall|k: int| 0 <= k < r.locals.len() implies r.local_ok(k) by {
        assert(t.local_ok(k));
    }
}

/// Refusing a thread that has died keeps the invariant.
proof fn lemma_buried(t: ThreadsView)
    requires
        t.wf(),
        t.this().slow is Unset,
        t.this().fast.status is DeadOrDying,
    ensures
        t.buried().wf(),
{
    let r = t.buried();
    assert(t.local_ok(t.current));
    assert forall|i: int| 0 <= i < r.infos.len() implies r.info_ok(i) by {
        assert(t.info_ok(i));
    }
    assert forall|k: int| 0 <= k < r.locals.len() implies r.local_ok(k) by {
        assert(t.local_ok(k));
    }
}

/// Making a destroyed state anew keeps the invariant.
pub proof fn lemma_revived(t: ThreadsView)
    requires
        t.wf(),
    ensures
        t.revived().wf(),
{
    let r = t.revived();
    assert(t.local_ok(t.current));
    assert forall|i: int| 0 <= i < r.infos.len() implies r.info_ok(i) by {
        assert(t.info_ok(i));
    }
    assert forall|k: int| 0 <= k < r.locals.len() implies r.local_ok(k) by {
        assert(t.local_ok(k));
    }
}

/// Refusing a thread keeps the invariant.
proof fn lemma_refused(t: ThreadsView)
    requires
        t.wf(),
        t.this().slow is Unset,
        !(t.this().fast.status is DeadOrDying),
        t.infos.len() == ShortThreadId::MAX,
    ensures
        t.refused().wf(),
{
    let r = t.refused();
    assert(t.local_ok(t.current));
    assert forall|i: int| 0 <= i < r.infos.len() implies r.info_ok(i) by {
        assert(t.info_ok(i));
    }
    assert forall|k: int| 0 <= k < r.locals.len() implies r.local_ok(k) by {
        assert(t.local_ok(k));
    }
}

/// A live thread that an object is queued for is told so, and the flag is set back once it
/// has worked its queue off. A thread that is being destroyed or is dead stays so.
pub proof fn lemma_flag_steps(flag: ThreadStateFlag)
    ensures
        flag is Live || flag is QueuedObjects ==> {
            &&& flag.pushed() is QueuedObjects
            &&& flag.processed() is Live
            &&& flag.live()
        },
        flag is Dying || flag is Dead ==> {
            &&& flag.pushed() == flag
            &&& flag.processed() == flag
            &&& !flag.live()
        },
{
}

} // verus!
