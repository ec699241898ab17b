//! The task table: named tasks with commands and dependencies.

use vstd::prelude::*;

use crate::entries::{
    find_key, keys_unique, lemma_map_absent, lemma_map_found, lemma_map_keys, map_of, put_entry,
};
use crate::env::EnvConfig;
use crate::text::views;

verus! {

/// One task: a command line, an optional description, and the names of the
/// tasks that must run first, in order.
#[derive(Debug)]
pub struct Task {
    pub cmd: String,
    pub desc: Option<String>,
    pub depends_on: Option<Vec<String>>,
}

/// What the executor reads of a task: its command and its dependencies.
pub struct TaskModel {
    pub cmd: Seq<char>,
    pub deps: Seq<Seq<char>>,
}

impl View for Task {
    type V = TaskModel;

    open spec fn view(&self) -> TaskModel {
        TaskModel {
            cmd: self.cmd@,
            deps: match self.depends_on {
                Some(d) => views(d@),
                None => seq![],
            },
        }
    }
}

/// A manifest: tasks under unique names, and the environment files to load.
#[derive(Debug)]
pub struct TaskFile {
    tasks: Vec<(String, Task)>,
    env: Option<EnvConfig>,
}

impl View for TaskFile {
    type V = Map<Seq<char>, TaskModel>;

    closed spec fn view(&self) -> Map<Seq<char>, TaskModel> {
        map_of(self.tasks@)
    }
}

impl TaskFile {
    /// Well-formed: no task name is stored twice.
    pub closed spec fn wf(&self) -> bool {
        keys_unique(self.tasks@)
    }

    /// The declared environment files, if any.
    pub closed spec fn spec_env(&self) -> Option<EnvConfig> {
        self.env
    }

    /// The names of the tasks, in the order they were first added.
    pub closed spec fn spec_names(&self) -> Seq<Seq<char>> {
        self.tasks@.map_values(|e: (String, Task)| e.0@)
    }

    /// The tasks with their names, in the order they were first added.
    pub closed spec fn spec_entries(&self) -> Seq<(String, Task)> {
        self.tasks@
    }

    /// The tasks with their names, in the order they were first added.
    pub fn entries(&self) -> (r: &Vec<(String, Task)>)
        ensures
            r@ == self.spec_entries(),
            map_of(r@) == self@,
            self.wf() ==> keys_unique(r@),
    {
        &self.tasks
    }

    /// A manifest with no tasks and no environment files.
    pub fn new() -> (r: TaskFile)
        ensures
            r.wf(),
            r@ == Map::<Seq<char>, TaskModel>::empty(),
            r.spec_env() is None,
    {
        TaskFile { tasks: Vec::new(), env: None }
    }

    /// Adds `task` under `name`, replacing a task of that name.
    pub fn insert(&mut self, name: String, task: Task)
        requires
            old(self).wf(),
        ensures
            final(self).wf(),
            final(self)@ == old(self)@.insert(name@, task@),
            final(self).spec_env() == old(self).spec_env(),
    {
        put_entry(&mut self.tasks, (name, task));
    }

    /// Sets the environment files to load.
    pub fn set_env(&mut self, env: Option<EnvConfig>)
        ensures
            final(self).wf() == old(self).wf(),
            final(self)@ == old(self)@,
            final(self).spec_env() == env,
    {
        self.env = env;
    }

    /// The declared environment files, if any.
    pub fn env(&self) -> (r: Option<&EnvConfig>)
        ensures
            match r {
                Some(c) => self.spec_env() == Some(*c),
                None => self.spec_env() is None,
            },
    {
        self.env.as_ref()
    }

    /// The task named `name`.
    pub fn find(&self, name: &String) -> (r: Option<&Task>)
        requires
            self.wf(),
        ensures
            match r {
                Some(t) => self@.contains_key(name@) && self@[name@] == t@,
                None => !self@.contains_key(name@),
            },
    {
        match find_key(&self.tasks, name) {
            Some(i) => {
                proof {
                    lemma_map_found(self.tasks@, i as int);
                }
                Some(&self.tasks[i].1)
            },
            None => {
                proof {
                    lemma_map_absent(self.tasks@, name@);
                }
                None
            },
        }
    }

    /// The task names, in the order they were first added.
    pub fn names(&self) -> (r: Vec<&String>)
        ensures
            r@.map_values(|x: &String| x@) == self.spec_names(),
    {
        let mut r: Vec<&String> = Vec::new();
        let mut i: usize = 0;
        while i < self.tasks.len()
            invariant
                i <= self.tasks@.len(),
                r@.len() == i,
                r@.map_values(|x: &String| x@) == self.spec_names().take(i as int),
            decreases self.tasks@.len() - i,
        {
            let name = &self.tasks[i].0;
            let ghost prev = r@;
            assert(name@ == self.spec_names()[i as int]);
            r.push(name);
            assert forall|j: int| 0 <= j <= i implies r@.map_values(|x: &String| x@)[j]
                == self.spec_names()[j] by {
                if j < i {
                    assert(r@[j] == prev[j]);
                    assert(prev.map_values(|x: &String| x@)[j] == self.spec_names().take(
                        i as int,
                    )[j]);
                }
            }
            i += 1;
            assert(r@.map_values(|x: &String| x@) =~= self.spec_names().take(i as int));
        }
        assert(self.spec_names().take(i as int) =~= self.spec_names());
        r
    }

    /// The names are the names of the tasks, each once.
    pub proof fn lemma_names(&self)
        requires
            self.wf(),
        ensures
            self.spec_names().no_duplicates(),
            self.spec_names().len() == self@.dom().len(),
            forall|k: Seq<char>| self@.contains_key(k) <==> self.spec_names().contains(k),
    {
        lemma_names_len(self.tasks@);
        assert forall|k: Seq<char>| self@.contains_key(k) implies self.spec_names().contains(k) by {
            lemma_map_keys(self.tasks@, k);
            let i = choose|i: int| 0 <= i < self.tasks@.len() && (#[trigger] self.tasks@[i]).0@ == k;
            assert(self.spec_names()[i] == k);
        }
        assert forall|k: Seq<char>| self.spec_names().contains(k) implies self@.contains_key(k) by {
            let i = choose|i: int| 0 <= i < self.spec_names().len() && self.spec_names()[i] == k;
            lemma_map_found(self.tasks@, i);
        }
    }

    /// A manifest has finitely many tasks.
    pub proof fn lemma_finite(&self)
        requires
            self.wf(),
        ensures
            self@.dom().finite(),
    {
        lemma_names_len(self.tasks@);
    }

    /// The number of tasks.
    pub fn len(&self) -> (r: usize)
        requires
            self.wf(),
        ensures
            r == self@.dom().len(),
    {
        proof {
            lemma_names_len(self.tasks@);
        }
        self.tasks.len()
    }
}

/// The names of a list of entries with unique names are the map's names,
/// each once.
proof fn lemma_names_len(v: Seq<(String, Task)>)
    requires
        keys_unique(v),
    ensures
        map_of(v).dom().len() == v.len(),
        map_of(v).dom().finite(),
    decreases v.len(),
{
    if v.len() > 0 {
        let w = v.drop_last();
        lemma_names_len(w);
        assert forall|i: int| 0 <= i < w.len() implies (#[trigger] w[i]).0@ != v.last().0@ by {
            assert(w[i] == v[i]);
        }
        lemma_map_absent(w, v.last().0@);
    }
}

} // verus!
