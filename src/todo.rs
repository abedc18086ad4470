//! A to-do list: tasks with increasing ids, completed or pending.
use vstd::prelude::*;

verus! {

/// One task of a to-do list.
#[derive(Debug, Clone)]
pub struct Task {
    pub id: u32,
    pub description: String,
    pub completed: bool,
}

impl Task {
    /// A pending task.
    pub fn new(id: u32, description: &str) -> (r: Self)
        ensures
            r.id == id,
            r.description@ == description@,
            !r.completed,
    {
        Task { id, description: String::from_str(description), completed: false }
    }

    /// Marks the task done.
    pub fn complete(&mut self)
        ensures
            final(self).completed,
            final(self).id == old(self).id,
            final(self).description == old(self).description,
    {
        self.completed = true;
    }
}

/// The abstract state of a to-do list: its tasks in id order, and the id the next task gets.
pub struct TodoView {
    pub tasks: Seq<Task>,
    pub next_id: u32,
}

/// A to-do list.
pub struct TodoList {
    tasks: Vec<Task>,
    next_id: u32,
}

/// The task ids strictly increase, all lie below the next id, and the next id is at least 1.
pub open spec fn well_formed(v: TodoView) -> bool {
    &&& v.next_id >= 1
    &&& forall|i: int, j: int| 0 <= i < j < v.tasks.len() ==> v.tasks[i].id < v.tasks[j].id
    &&& forall|i: int| 0 <= i < v.tasks.len() ==> #[trigger] v.tasks[i].id < v.next_id
}

/// The same task with the completed mark set.
pub open spec fn completed_task(t: Task) -> Task {
    Task { completed: true, ..t }
}

impl View for TodoList {
    type V = TodoView;

    closed spec fn view(&self) -> TodoView {
        TodoView { tasks: self.tasks@, next_id: self.next_id }
    }
}

impl TodoList {
    /// An empty list whose first task gets id 1.
    pub fn new() -> (r: Self)
        ensures
            r@.tasks == Seq::<Task>::empty(),
            r@.next_id == 1,
            well_formed(r@),
    {
        TodoList { tasks: Vec::new(), next_id: 1 }
    }

    /// Adds a pending task with the next id and returns that id.
    pub fn add(&mut self, description: &str) -> (r: u32)
        requires
            well_formed(old(self)@),
            old(self)@.next_id < u32::MAX,
        ensures
            well_formed(final(self)@),
            r == old(self)@.next_id,
            final(self)@.next_id == r + 1,
            final(self)@.tasks.len() == old(self)@.tasks.len() + 1,
            final(self)@.tasks.drop_last() == old(self)@.tasks,
            final(self)@.tasks.last().id == r,
            final(self)@.tasks.last().description@ == description@,
            !final(self)@.tasks.last().completed,
    {
        let id = self.next_id;
        self.tasks.push(Task::new(id, description));
        self.next_id = self.next_id + 1;
        assert(self@.tasks.drop_last() =~= old(self)@.tasks);
        id
    }

    fn position(&self, id: u32) -> (r: Option<usize>)
        ensures
            r matches Some(i) ==> i < self@.tasks.len() && self@.tasks[i as int].id == id,
            r is None ==> forall|i: int| 0 <= i < self@.tasks.len() ==> #[trigger] self@.tasks[i].id != id,
    {
        let mut i: usize = 0;
        while i < self.tasks.len()
            invariant
                i <= self@.tasks.len(),
                forall|j: int| 0 <= j < i ==> #[trigger] self@.tasks[j].id != id,
            decreases self@.tasks.len() - i,
        {
            if self.tasks[i].id == id {
                return Some(i);
            }
            i += 1;
        }
        None
    }

    /// Marks the task with id `id` done and returns it; None when there is no such task.
    pub fn complete(&mut self, id: u32) -> (r: Option<&Task>)
        requires
            well_formed(old(self)@),
        ensures
            well_formed(final(self)@),
            final(self)@.next_id == old(self)@.next_id,
            final(self)@.tasks.len() == old(self)@.tasks.len(),
            (exists|i: int| 0 <= i < old(self)@.tasks.len() && #[trigger] old(self)@.tasks[i].id == id) <==> r is Some,
            forall|i: int| 0 <= i < old(self)@.tasks.len() ==> #[trigger] final(self)@.tasks[i] == (
                if old(self)@.tasks[i].id == id { completed_task(old(self)@.tasks[i]) } else { old(self)@.tasks[i] }),
            r matches Some(t) ==> t.id == id && t.completed,
    {
        match self.position(id) {
            None => None,
            Some(i) => {
                let mut t = self.tasks.remove(i);
                t.complete();
                self.tasks.insert(i, t);
                proof {
                    assert forall|k: int| 0 <= k < old(self)@.tasks.len() implies #[trigger] self@.tasks[k] == (
                        if old(self)@.tasks[k].id == id { completed_task(old(self)@.tasks[k]) } else { old(self)@.tasks[k] }) by {
                        if k != i {
                            assert(old(self)@.tasks[k].id != id);
                        }
                    }
                }
                Some(&self.tasks[i])
            },
        }
    }

    /// Takes the task with id `id` out of the list; None when there is no such task.
    pub fn remove(&mut self, id: u32) -> (r: Option<Task>)
        requires
            well_formed(old(self)@),
        ensures
            well_formed(final(self)@),
            final(self)@.next_id == old(self)@.next_id,
            (exists|i: int| 0 <= i < old(self)@.tasks.len() && #[trigger] old(self)@.tasks[i].id == id) <==> r is Some,
            r is None ==> final(self)@.tasks == old(self)@.tasks,
            r matches Some(t) ==> exists|i: int| 0 <= i < old(self)@.tasks.len()
                && old(self)@.tasks[i] == t && t.id == id
                && #[trigger] final(self)@.tasks == old(self)@.tasks.remove(i),
    {
        match self.position(id) {
            None => None,
            Some(i) => {
                let t = self.tasks.remove(i);
                Some(t)
            },
        }
    }

    /// Every task, in id order.
    pub fn list(&self) -> (r: Vec<&Task>)
        ensures
            r@.map_values(|t: &Task| *t) == self@.tasks,
    {
        let mut r: Vec<&Task> = Vec::new();
        let mut i: usize = 0;
        while i < self.tasks.len()
            invariant
                i <= self@.tasks.len(),
                r@.map_values(|t: &Task| *t) == self@.tasks.take(i as int),
            decreases self@.tasks.len() - i,
        {
            let ghost before = r@;
            r.push(&self.tasks[i]);
            assert(r@.map_values(|t: &Task| *t) =~= before.map_values(|t: &Task| *t).push(self@.tasks[i as int]));
            assert(self@.tasks.take(i + 1) =~= self@.tasks.take(i as int).push(self@.tasks[i as int]));
            i += 1;
        }
        assert(self@.tasks.take(i as int) =~= self@.tasks);
        r
    }

    fn select(&self, done: bool) -> (r: Vec<&Task>)
        ensures
            r@.map_values(|t: &Task| *t) == self@.tasks.filter(|t: Task| t.completed == done),
    {
        let mut r: Vec<&Task> = Vec::new();
        let mut i: usize = 0;
        while i < self.tasks.len()
            invariant
                i <= self@.tasks.len(),
                r@.map_values(|t: &Task| *t) == self@.tasks.take(i as int).filter(|t: Task| t.completed == done),
            decreases self@.tasks.len() - i,
        {
            proof {
                reveal(Seq::filter);
                assert(self@.tasks.take(i + 1).drop_last() =~= self@.tasks.take(i as int));
            }
            let ghost before = r@;
            if self.tasks[i].completed == done {
                r.push(&self.tasks[i]);
                assert(r@.map_values(|t: &Task| *t) =~= before.map_values(|t: &Task| *t).push(self@.tasks[i as int]));
            }
            i += 1;
        }
        assert(self@.tasks.take(i as int) =~= self@.tasks);
        r
    }

    /// The completed tasks, in id order.
    pub fn list_completed(&self) -> (r: Vec<&Task>)
        ensures
            r@.map_values(|t: &Task| *t) == self@.tasks.filter(|t: Task| t.completed),
    {
        let r = self.select(true);
        assert(self@.tasks.filter(|t: Task| t.completed == true) == self@.tasks.filter(|t: Task| t.completed)) by {
            assert((|t: Task| t.completed == true) =~= (|t: Task| t.completed));
        }
        r
    }

    /// The pending tasks, in id order.
    pub fn list_pending(&self) -> (r: Vec<&Task>)
        ensures
            r@.map_values(|t: &Task| *t) == self@.tasks.filter(|t: Task| !t.completed),
    {
        let r = self.select(false);
        assert(self@.tasks.filter(|t: Task| t.completed == false) == self@.tasks.filter(|t: Task| !t.completed)) by {
            assert((|t: Task| t.completed == false) =~= (|t: Task| !t.completed));
        }
        r
    }
}

} // verus!
