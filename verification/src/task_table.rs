//! The dormant tasks, each filed under its identifier.

use vstd::prelude::*;

verus! {

/// A task together with the identifier it was given when it was spawned.
///
/// The identifier cannot be changed from outside, so a frame that went out
/// for a resumption comes back under the identifier it left with.
pub struct Frame<F> {
    id: usize,
    task: F,
}

impl<F> Frame<F> {
    /// The identifier of the task.
    pub closed spec fn id(&self) -> usize {
        self.id
    }

    /// The task itself.
    pub closed spec fn task(&self) -> F {
        self.task
    }

    /// Binds `task` to the identifier `id`.
    pub(crate) fn bind(id: usize, task: F) -> (frame: Self)
        ensures
            frame.id() == id,
            frame.task() == task,
    {
        Frame { id, task }
    }

    /// The task, to look at.
    pub fn get(&self) -> (task: &F)
        ensures
            *task == self.task(),
    {
        &self.task
    }

    /// The task, to resume it. The identifier stays as it is.
    pub fn get_mut(&mut self) -> (task: &mut F)
        ensures
            *task == old(self).task(),
            final(self).id() == old(self).id(),
            final(self).task() == *final(task),
    {
        &mut self.task
    }

    /// Gives the task back, dropping its identifier.
    pub fn into_task(self) -> (task: F)
        ensures
            task == self.task(),
    {
        self.task
    }
}

/// The key under which `frame` is filed: the identifier of its task.
pub fn as_ptr<F>(frame: &Frame<F>) -> (id: usize)
    ensures
        id == frame.id(),
{
    frame.id
}

/// A `hashbrown::HashMap` from task identifier to a position in the table's storage.
#[verifier::external_body]
pub struct SlotIndex {
    map: hashbrown::HashMap<usize, usize>,
}

/// What a `SlotIndex` holds: the position recorded for each identifier.
pub uninterp spec fn slots(index: SlotIndex) -> Map<usize, usize>;

/// `hashbrown::HashMap::new`: a map that holds no key.
#[verifier::external_body]
fn slot_index_new() -> (index: SlotIndex)
    ensures
        forall|id: usize| !slots(index).contains_key(id),
{
    SlotIndex { map: hashbrown::HashMap::new() }
}

/// `hashbrown::HashMap::get`: the position recorded for `id`, if there is one.
#[verifier::external_body]
fn slot_index_get(index: &SlotIndex, id: usize) -> (slot: Option<usize>)
    ensures
        slot == (if slots(*index).contains_key(id) {
            Some(slots(*index)[id])
        } else {
            None
        }),
{
    index.map.get(&id).copied()
}

/// `hashbrown::HashMap::insert`: afterwards `id` has the position `slot`,
/// whether or not it had one before, and every other key is as it was.
#[verifier::external_body]
fn slot_index_insert(index: &mut SlotIndex, id: usize, slot: usize)
    ensures
        slots(*final(index)) == slots(*old(index)).insert(id, slot),
{
    index.map.insert(id, slot);
}

/// `hashbrown::HashMap::remove`: returns the position that `id` had, if any;
/// afterwards `id` has none, and every other key is as it was.
#[verifier::external_body]
fn slot_index_remove(index: &mut SlotIndex, id: usize) -> (slot: Option<usize>)
    ensures
        slots(*final(index)) == slots(*old(index)).remove(id),
        slot == (if slots(*old(index)).contains_key(id) {
            Some(slots(*old(index))[id])
        } else {
            None
        }),
{
    index.map.remove(&id)
}

/// The index and the storage agree: position `k` of the storage holds the
/// frame whose identifier the index sends to `k`, and the index knows no
/// other identifier.
spec fn consistent<F>(index: Map<usize, usize>, frames: Seq<Frame<F>>) -> bool {
    &&& forall|k: int|
        0 <= k < frames.len() ==> index.contains_key((#[trigger] frames[k]).id) && index[frames[k].id]
            == k
    &&& forall|id: usize| #[trigger]
        index.contains_key(id) ==> index[id] < frames.len() && frames[index[id] as int].id == id
}

/// The tasks that an index and its storage file, by identifier.
spec fn filed<F>(index: Map<usize, usize>, frames: Seq<Frame<F>>) -> Map<usize, F> {
    Map::new(|id: usize| index.contains_key(id), |id: usize| frames[index[id] as int].task)
}

/// Files `frame` under its identifier.
fn file<F>(index: &mut SlotIndex, frames: &mut Vec<Frame<F>>, frame: Frame<F>) -> (displaced: Option<
    Frame<F>,
>)
    requires
        consistent(slots(*old(index)), old(frames)@),
    ensures
        consistent(slots(*final(index)), final(frames)@),
        filed(slots(*final(index)), final(frames)@) == filed(
            slots(*old(index)),
            old(frames)@,
        ).insert(frame.id(), frame.task()),
        displaced.is_some() <==> slots(*old(index)).contains_key(frame.id()),
        displaced matches Some(prior) ==> prior.id() == frame.id() && prior.task() == filed(
            slots(*old(index)),
            old(frames)@,
        )[frame.id()],
{
    let id = as_ptr(&frame);
    match slot_index_get(index, id) {
        Some(slot) => {
            let mut prior = frame;
            core::mem::swap(&mut frames[slot], &mut prior);
            assert(filed(slots(*index), frames@) =~= filed(slots(*old(index)), old(frames)@).insert(
                id,
                frame.task(),
            ));
            Some(prior)
        },
        None => {
            let slot = frames.len();
            frames.push(frame);
            slot_index_insert(index, id, slot);
            assert(filed(slots(*index), frames@) =~= filed(slots(*old(index)), old(frames)@).insert(
                id,
                frame.task(),
            ));
            None
        },
    }
}

/// Takes out the frame filed under `id`, if there is one.
fn unfile<F>(index: &mut SlotIndex, frames: &mut Vec<Frame<F>>, id: usize) -> (taken: Option<
    Frame<F>,
>)
    requires
        consistent(slots(*old(index)), old(frames)@),
    ensures
        consistent(slots(*final(index)), final(frames)@),
        filed(slots(*final(index)), final(frames)@) == filed(
            slots(*old(index)),
            old(frames)@,
        ).remove(id),
        taken.is_some() <==> slots(*old(index)).contains_key(id),
        taken matches Some(frame) ==> frame.id() == id && frame.task() == filed(
            slots(*old(index)),
            old(frames)@,
        )[id],
{
    match slot_index_remove(index, id) {
        Some(slot) => {
            let frame = frames.swap_remove(slot);
            if slot < frames.len() {
                let moved = as_ptr(&frames[slot]);
                slot_index_insert(index, moved, slot);
            }
            assert(filed(slots(*index), frames@) =~= filed(slots(*old(index)), old(frames)@).remove(
                id,
            ));
            Some(frame)
        },
        None => {
            assert(slots(*index) =~= slots(*old(index)));
            assert(filed(slots(*index), frames@) =~= filed(slots(*old(index)), old(frames)@).remove(
                id,
            ));
            None
        },
    }
}

/// The tasks that are not being resumed, by identifier.
///
/// Seen from outside it is a map from identifier to task. Inside, the frames
/// lie side by side in a vector, and a hash map finds the position of each.
pub struct TaskTable<F> {
    index: SlotIndex,
    frames: Vec<Frame<F>>,
}

impl<F> View for TaskTable<F> {
    type V = Map<usize, F>;

    closed spec fn view(&self) -> Map<usize, F> {
        filed(slots(self.index), self.frames@)
    }
}

impl<F> TaskTable<F> {
    #[verifier::type_invariant]
    spec fn well_formed(self) -> bool {
        consistent(slots(self.index), self.frames@)
    }

    /// A table without tasks.
    pub fn new() -> (table: Self)
        ensures
            table@ == Map::<usize, F>::empty(),
    {
        let table = TaskTable { index: slot_index_new(), frames: Vec::new() };
        assert(table@ =~= Map::<usize, F>::empty());
        table
    }

    /// The number of tasks in the table.
    pub fn len(&self) -> (count: usize)
        ensures
            count == self@.len(),
            self@.dom().finite(),
    {
        proof {
            use_type_invariant(self);
            lemma_filed_count(slots(self.index), self.frames@);
        }
        self.frames.len()
    }

    /// Whether a task is filed under `id`.
    pub fn contains(&self, id: usize) -> (present: bool)
        ensures
            present == self@.contains_key(id),
    {
        slot_index_get(&self.index, id).is_some()
    }

    /// Files `frame` under its identifier. A frame that was filed under the
    /// same identifier makes room and is returned.
    pub fn insert(&mut self, frame: Frame<F>) -> (displaced: Option<Frame<F>>)
        ensures
            final(self)@ == old(self)@.insert(frame.id(), frame.task()),
            displaced.is_some() <==> old(self)@.contains_key(frame.id()),
            displaced matches Some(prior) ==> prior.id() == frame.id() && prior.task() == old(
                self,
            )@[frame.id()],
    {
        proof {
            use_type_invariant(&*self);
        }
        let mut table = TaskTable::new();
        core::mem::swap(self, &mut table);
        let TaskTable { mut index, mut frames } = table;
        let displaced = file(&mut index, &mut frames, frame);
        *self = TaskTable { index, frames };
        displaced
    }

    /// Takes out the frame filed under `id`, if there is one.
    pub fn remove(&mut self, id: usize) -> (taken: Option<Frame<F>>)
        ensures
            final(self)@ == old(self)@.remove(id),
            taken.is_some() <==> old(self)@.contains_key(id),
            taken matches Some(frame) ==> frame.id() == id && frame.task() == old(self)@[id],
    {
        proof {
            use_type_invariant(&*self);
        }
        let mut table = TaskTable::new();
        core::mem::swap(self, &mut table);
        let TaskTable { mut index, mut frames } = table;
        let taken = unfile(&mut index, &mut frames, id);
        *self = TaskTable { index, frames };
        taken
    }
}

/// A consistent table files as many tasks as its storage holds frames.
proof fn lemma_filed_count<F>(index: Map<usize, usize>, frames: Seq<Frame<F>>)
    requires
        consistent(index, frames),
    ensures
        filed(index, frames).dom().finite(),
        filed(index, frames).len() == frames.len(),
    decreases frames.len(),
{
    let all = filed(index, frames);
    if frames.len() == 0 {
        assert(all.dom() =~= Set::<usize>::empty());
    } else {
        let last = frames.last();
        let rest = frames.drop_last();
        let fewer = index.remove(last.id);
        assert(consistent(fewer, rest)) by {
            assert forall|k: int| 0 <= k < rest.len() implies fewer.contains_key(
                (#[trigger] rest[k]).id,
            ) && fewer[rest[k].id] == k by {
                assert(rest[k] == frames[k]);
                assert(index[frames[frames.len() - 1].id] == frames.len() - 1);
            }
        }
        lemma_filed_count(fewer, rest);
        assert(all.dom() =~= filed(fewer, rest).dom().insert(last.id));
    }
}

} // verus!
