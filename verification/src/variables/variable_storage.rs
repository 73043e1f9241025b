use vstd::prelude::*;
use crate::numeric::Numeric;
use crate::text::str_eq;
use crate::variables::variable_types::{vt_wf, VariableType};

verus! {

// ---------------------------------------------------------------------------
// The in-memory variable store
//
// One named slot per variable, a separate list of temporaries, a list of
// environment values, and the distinguished last-answer slot. This is the
// store's logic alone: reading values from disk and writing them back is
// the surrounding program's business.
// ---------------------------------------------------------------------------

/// One stored binding.
pub struct VarStorageEntry<N: Numeric> {
    pub name: String,
    pub data: VariableType<N>,
    pub desc: String,
    pub write_to_files: bool,
}

/// Some entry carries the name.
pub open spec fn has_name<N: Numeric>(es: Seq<VarStorageEntry<N>>, name: Seq<char>) -> bool {
    exists|i: int| 0 <= i < es.len() && (#[trigger] es[i]).name@ == name
}

/// The entry at `i` is the first one carrying the name.
pub open spec fn first_match<N: Numeric>(
    es: Seq<VarStorageEntry<N>>,
    name: Seq<char>,
    i: int,
) -> bool {
    &&& 0 <= i < es.len()
    &&& es[i].name@ == name
    &&& forall|k: int| 0 <= k < i ==> (#[trigger] es[k]).name@ != name
}

pub open spec fn entries_wf<N: Numeric>(es: Seq<VarStorageEntry<N>>) -> bool {
    forall|i: int| 0 <= i < es.len() ==> vt_wf((#[trigger] es[i]).data)
}

/// The data of the first entry under the name, if any.
pub open spec fn lookup<N: Numeric>(es: Seq<VarStorageEntry<N>>, name: Seq<char>) -> Option<
    VariableType<N>,
>
    decreases es.len(),
{
    if es.len() == 0 {
        None
    } else if es[0].name@ == name {
        Some(es[0].data)
    } else {
        lookup(es.drop_first(), name)
    }
}

pub proof fn lemma_lookup_first_match<N: Numeric>(
    es: Seq<VarStorageEntry<N>>,
    name: Seq<char>,
    i: int,
)
    requires
        first_match(es, name, i),
    ensures
        lookup(es, name) == Some(es[i].data),
    decreases i,
{
    if i == 0 {
    } else {
        assert(es[0].name@ != name);
        assert(first_match(es.drop_first(), name, i - 1)) by {
            assert(es.drop_first()[i - 1] == es[i]);
            assert(forall|k: int|
                0 <= k < i - 1 ==> (#[trigger] es.drop_first()[k]).name@ != name) by {
                assert(forall|k: int| 0 <= k < i - 1 ==> es.drop_first()[k] == es[k + 1]);
            }
        }
        lemma_lookup_first_match(es.drop_first(), name, i - 1);
        assert(es.drop_first()[i - 1] == es[i]);
    }
}

pub proof fn lemma_lookup_absent<N: Numeric>(es: Seq<VarStorageEntry<N>>, name: Seq<char>)
    requires
        !has_name(es, name),
    ensures
        lookup(es, name) is None,
    decreases es.len(),
{
    if es.len() > 0 {
        assert(es[0].name@ != name);
        assert(!has_name(es.drop_first(), name)) by {
            if has_name(es.drop_first(), name) {
                let k = choose|k: int|
                    0 <= k < es.drop_first().len() && (#[trigger] es.drop_first()[k]).name@
                        == name;
                assert(es[k + 1] == es.drop_first()[k]);
            }
        }
        lemma_lookup_absent(es.drop_first(), name);
    }
}

impl<N: Numeric> VarStorageEntry<N> {
    /// A fresh binding; an empty name is refused.
    pub fn new(n: &str, data: VariableType<N>, write_to_files: bool) -> (r: Option<Self>)
        ensures
            n@.len() == 0 ==> r is None,
            n@.len() > 0 ==> (r matches Some(e) && e.name@ == n@ && e.data == data
                && e.desc@ == Seq::<char>::empty() && e.write_to_files == write_to_files),
    {
        if n.unicode_len() == 0 {
            None
        } else {
            Some(
                VarStorageEntry {
                    name: String::from_str(n),
                    data,
                    desc: String::new(),
                    write_to_files,
                },
            )
        }
    }

    pub fn set_writing_to_files(&mut self, new: bool)
        ensures
            final(self).name == old(self).name,
            final(self).data == old(self).data,
            final(self).desc == old(self).desc,
            final(self).write_to_files == new,
    {
        self.write_to_files = new;
    }

    pub fn get_desc(&self) -> (r: &str)
        ensures
            r@ == self.desc@,
    {
        self.desc.as_str()
    }

    pub fn get_data(&self) -> (r: &VariableType<N>)
        ensures
            *r == self.data,
    {
        &self.data
    }

    pub fn set_data(&mut self, new_data: VariableType<N>) -> (r: bool)
        ensures
            r,
            final(self).name == old(self).name,
            final(self).desc == old(self).desc,
            final(self).write_to_files == old(self).write_to_files,
            final(self).data == new_data,
    {
        self.data = new_data;
        true
    }
}

pub struct VarStorage<N: Numeric> {
    variables: Vec<VarStorageEntry<N>>,
    temporaries: Vec<VarStorageEntry<N>>,
    env_vars: Vec<VarStorageEntry<N>>,
    ans: VariableType<N>,
    save_to_files: bool,
}

/// First index in the list that carries the name, if any.
fn find_in<N: Numeric>(entries: &Vec<VarStorageEntry<N>>, name: &str) -> (r: Option<usize>)
    ensures
        match r {
            Some(i) => first_match(entries@, name@, i as int),
            None => !has_name(entries@, name@),
        },
{
    let mut i: usize = 0;
    while i < entries.len()
        invariant
            0 <= i <= entries@.len(),
            forall|k: int| 0 <= k < i ==> (#[trigger] entries@[k]).name@ != name@,
        decreases entries@.len() - i,
    {
        if str_eq(entries[i].name.as_str(), name) {
            return Some(i);
        }
        i = i + 1;
    }
    None
}

impl<N: Numeric> VarStorage<N> {
    pub closed spec fn vars(&self) -> Seq<VarStorageEntry<N>> {
        self.variables@
    }

    pub closed spec fn temps(&self) -> Seq<VarStorageEntry<N>> {
        self.temporaries@
    }

    pub closed spec fn envs(&self) -> Seq<VarStorageEntry<N>> {
        self.env_vars@
    }

    pub closed spec fn ans_val(&self) -> VariableType<N> {
        self.ans
    }

    pub closed spec fn saving(&self) -> bool {
        self.save_to_files
    }

    pub open spec fn wf(&self) -> bool {
        entries_wf(self.vars()) && entries_wf(self.temps()) && entries_wf(self.envs()) && vt_wf(
            self.ans_val(),
        )
    }

    /// An empty store: no bindings and no last answer.
    pub fn new() -> (r: Self)
        ensures
            r.wf(),
            r.vars().len() == 0,
            r.temps().len() == 0,
            r.envs().len() == 0,
            r.ans_val() == VariableType::<N>::Absent,
            r.saving(),
    {
        VarStorage {
            variables: Vec::new(),
            temporaries: Vec::new(),
            env_vars: Vec::new(),
            ans: VariableType::Absent,
            save_to_files: true,
        }
    }

    pub fn is_saving_to_files(&self) -> (b: bool)
        ensures
            b == self.saving(),
    {
        self.save_to_files
    }

    /// Flips the persistence flag; every variable entry follows it.
    pub fn set_save_to_files(&mut self, new: bool)
        requires
            old(self).wf(),
        ensures
            final(self).wf(),
            final(self).saving() == new,
            final(self).vars().len() == old(self).vars().len(),
            forall|k: int|
                0 <= k < old(self).vars().len() ==> (#[trigger] final(self).vars()[k]).name
                    == old(self).vars()[k].name && final(self).vars()[k].data == old(self).vars()[k].data,
            final(self).temps() == old(self).temps(),
            final(self).envs() == old(self).envs(),
            final(self).ans_val() == old(self).ans_val(),
    {
        if self.save_to_files != new {
            self.save_to_files = new;
            let mut i: usize = 0;
            while i < self.variables.len()
                invariant
                    entries_wf(self.variables@),
                    entries_wf(self.temporaries@),
                    entries_wf(self.env_vars@),
                    vt_wf(self.ans),
                    0 <= i <= self.variables@.len(),
                    self.variables@.len() == old(self).vars().len(),
                    forall|k: int|
                        0 <= k < old(self).vars().len() ==> (#[trigger] self.variables@[k]).name
                            == old(self).vars()[k].name && self.variables@[k].data == old(
                            self,
                        ).vars()[k].data,
                    self.temporaries@ == old(self).temps(),
                    self.env_vars@ == old(self).envs(),
                    self.ans == old(self).ans_val(),
                    self.save_to_files == new,
                decreases self.variables@.len() - i,
            {
                self.variables[i].write_to_files = new;
                i = i + 1;
            }
        }
    }

    pub fn variable_exists(&self, name: &str) -> (b: bool)
        ensures
            b == has_name(self.vars(), name@),
    {
        match find_in(&self.variables, name) {
            Some(_) => true,
            None => false,
        }
    }

    /// The stored value under the name, if any.
    pub fn get_variable_value(&self, name: &str) -> (r: Option<&VariableType<N>>)
        ensures
            r is Some <==> has_name(self.vars(), name@),
            r matches Some(v) ==> exists|i: int|
                first_match(self.vars(), name@, i) && *v == (#[trigger] self.vars()[i]).data,
            match r {
                Some(v) => lookup(self.vars(), name@) == Some(*v),
                None => lookup(self.vars(), name@) is None,
            },
    {
        match find_in(&self.variables, name) {
            Some(i) => {
                let v = &self.variables[i].data;
                proof {
                    assert(first_match(self.vars(), name@, i as int) && *v == self.vars()[
                        i as int
                    ].data);
                    lemma_lookup_first_match(self.vars(), name@, i as int);
                }
                Some(v)
            },
            None => {
                proof {
                    lemma_lookup_absent(self.vars(), name@);
                }
                None
            },
        }
    }

    /// Binds the name to the value, creating the binding if it is new;
    /// an empty name is refused.
    pub fn set_variable_value(&mut self, name: &str, new_value: VariableType<N>) -> (r: bool)
        requires
            old(self).wf(),
            vt_wf(new_value),
        ensures
            final(self).wf(),
            final(self).temps() == old(self).temps(),
            final(self).envs() == old(self).envs(),
            final(self).ans_val() == old(self).ans_val(),
            name@.len() == 0 && !has_name(old(self).vars(), name@) ==> !r && final(self).vars()
                == old(self).vars(),
            name@.len() > 0 ==> r,
            has_name(old(self).vars(), name@) ==> r,
            r ==> has_name(final(self).vars(), name@),
            r ==> exists|i: int|
                first_match(final(self).vars(), name@, i) && (#[trigger] final(self).vars()[i]).data
                    == new_value,
    {
        match find_in(&self.variables, name) {
            Some(i) => {
                self.variables[i].data = new_value;
                proof {
                    assert(first_match(self.variables@, name@, i as int));
                }
                true
            },
            None => {
                match VarStorageEntry::new(name, new_value, self.save_to_files) {
                    Some(entry) => {
                        let ghost before = self.variables@;
                        self.variables.push(entry);
                        proof {
                            assert(first_match(self.variables@, name@, before.len() as int));
                        }
                        true
                    },
                    None => false,
                }
            },
        }
    }

    /// Makes room for the name, keeping an existing binding; a fresh one
    /// starts absent. The first index under the name comes back, or
    /// nothing for an empty name.
    pub fn add_variable(&mut self, name: &str, value: VariableType<N>) -> (r: Option<usize>)
        requires
            old(self).wf(),
            vt_wf(value),
        ensures
            final(self).wf(),
            final(self).temps() == old(self).temps(),
            final(self).envs() == old(self).envs(),
            final(self).ans_val() == old(self).ans_val(),
            has_name(old(self).vars(), name@) ==> final(self).vars() == old(self).vars() && (
            r matches Some(i) && first_match(final(self).vars(), name@, i as int)),
            !has_name(old(self).vars(), name@) && name@.len() > 0 ==> (r matches Some(i)
                && i == old(self).vars().len() && final(self).vars().len()
                == old(self).vars().len() + 1 && first_match(final(self).vars(), name@, i as int)),
            name@.len() == 0 && !has_name(old(self).vars(), name@) ==> r is None
                && final(self).vars() == old(self).vars(),
    {
        match find_in(&self.variables, name) {
            Some(i) => Some(i),
            None => {
                match VarStorageEntry::new(name, value, self.save_to_files) {
                    Some(entry) => {
                        let ghost before = self.variables@;
                        let index = self.variables.len();
                        self.variables.push(entry);
                        proof {
                            assert(first_match(self.variables@, name@, before.len() as int));
                        }
                        Some(index)
                    },
                    None => None,
                }
            },
        }
    }

    /// Clears the binding under the name back to absence, creating it if
    /// it is new; an empty name is refused.
    pub fn reset_variable(&mut self, name: &str) -> (r: bool)
        requires
            old(self).wf(),
        ensures
            final(self).wf(),
            final(self).temps() == old(self).temps(),
            final(self).envs() == old(self).envs(),
            final(self).ans_val() == old(self).ans_val(),
            r == (name@.len() > 0 || has_name(old(self).vars(), name@)),
            !r ==> final(self).vars() == old(self).vars(),
            r ==> exists|i: int|
                first_match(final(self).vars(), name@, i) && (#[trigger] final(self).vars()[i]).data
                    == VariableType::<N>::Absent,
    {
        match find_in(&self.variables, name) {
            Some(i) => {
                self.variables[i].data = VariableType::Absent;
                proof {
                    assert(first_match(self.variables@, name@, i as int));
                }
                true
            },
            None => {
                match VarStorageEntry::new(name, VariableType::Absent, self.save_to_files) {
                    Some(entry) => {
                        let ghost before = self.variables@;
                        self.variables.push(entry);
                        proof {
                            assert(first_match(self.variables@, name@, before.len() as int));
                        }
                        true
                    },
                    None => false,
                }
            },
        }
    }

    /// Drops the first binding under the name from the store; the other
    /// bindings keep their places.
    pub fn pop_variable(&mut self, name: &str) -> (r: bool)
        requires
            old(self).wf(),
        ensures
            final(self).wf(),
            final(self).temps() == old(self).temps(),
            final(self).envs() == old(self).envs(),
            final(self).ans_val() == old(self).ans_val(),
            r == has_name(old(self).vars(), name@),
            !r ==> final(self).vars() == old(self).vars(),
            r ==> exists|i: int|
                first_match(old(self).vars(), name@, i) && final(self).vars() == old(
                    self,
                ).vars().remove(i),
    {
        match find_in(&self.variables, name) {
            Some(i) => {
                self.variables.remove(i);
                proof {
                    assert(first_match(old(self).vars(), name@, i as int) && self.variables@
                        == old(self).vars().remove(i as int));
                }
                true
            },
            None => false,
        }
    }

    /// The stored temporary under the name, if any.
    pub fn get_temporary_value(&self, name: &str) -> (r: Option<&VariableType<N>>)
        ensures
            r is Some <==> has_name(self.temps(), name@),
            r matches Some(v) ==> exists|i: int|
                first_match(self.temps(), name@, i) && *v == (#[trigger] self.temps()[i]).data,
            match r {
                Some(v) => lookup(self.temps(), name@) == Some(*v),
                None => lookup(self.temps(), name@) is None,
            },
    {
        match find_in(&self.temporaries, name) {
            Some(i) => {
                let v = &self.temporaries[i].data;
                proof {
                    assert(first_match(self.temps(), name@, i as int) && *v == self.temps()[
                        i as int
                    ].data);
                    lemma_lookup_first_match(self.temps(), name@, i as int);
                }
                Some(v)
            },
            None => {
                proof {
                    lemma_lookup_absent(self.temps(), name@);
                }
                None
            },
        }
    }

    /// Overwrites an existing temporary; an unknown name is refused.
    pub fn set_temporary_value(&mut self, name: &str, new_data: VariableType<N>) -> (r: bool)
        requires
            old(self).wf(),
            vt_wf(new_data),
        ensures
            final(self).wf(),
            r == has_name(old(self).temps(), name@),
            !r ==> final(self).temps() == old(self).temps(),
            r ==> exists|i: int|
                first_match(final(self).temps(), name@, i) && (#[trigger] final(self).temps()[i]).data
                    == new_data,
    {
        match find_in(&self.temporaries, name) {
            Some(i) => {
                self.temporaries[i].data = new_data;
                proof {
                    assert(first_match(self.temporaries@, name@, i as int));
                }
                true
            },
            None => false,
        }
    }

    /// Drops the first temporary under the name; the other temporaries
    /// keep their places.
    pub fn drop_temporary(&mut self, name: &str) -> (r: bool)
        requires
            old(self).wf(),
        ensures
            final(self).wf(),
            final(self).vars() == old(self).vars(),
            final(self).envs() == old(self).envs(),
            final(self).ans_val() == old(self).ans_val(),
            r == has_name(old(self).temps(), name@),
            !r ==> final(self).temps() == old(self).temps(),
            r ==> exists|i: int|
                first_match(old(self).temps(), name@, i) && final(self).temps() == old(
                    self,
                ).temps().remove(i),
    {
        match find_in(&self.temporaries, name) {
            Some(i) => {
                self.temporaries.remove(i);
                proof {
                    assert(first_match(old(self).temps(), name@, i as int) && self.temporaries@
                        == old(self).temps().remove(i as int));
                }
                true
            },
            None => false,
        }
    }

    /// The stored environment value under the name, if any.
    pub fn get_env_var_value(&self, name: &str) -> (r: Option<&VariableType<N>>)
        ensures
            r is Some <==> has_name(self.envs(), name@),
            r matches Some(v) ==> exists|i: int|
                first_match(self.envs(), name@, i) && *v == (#[trigger] self.envs()[i]).data,
            match r {
                Some(v) => lookup(self.envs(), name@) == Some(*v),
                None => lookup(self.envs(), name@) is None,
            },
    {
        match find_in(&self.env_vars, name) {
            Some(i) => {
                let v = &self.env_vars[i].data;
                proof {
                    assert(first_match(self.envs(), name@, i as int) && *v == self.envs()[
                        i as int
                    ].data);
                    lemma_lookup_first_match(self.envs(), name@, i as int);
                }
                Some(v)
            },
            None => {
                proof {
                    lemma_lookup_absent(self.envs(), name@);
                }
                None
            },
        }
    }

    /// The description of the environment value under the name, if any.
    pub fn get_env_var_desc(&self, name: &str) -> (r: Option<&str>)
        ensures
            r is Some <==> has_name(self.envs(), name@),
    {
        match find_in(&self.env_vars, name) {
            Some(i) => Some(self.env_vars[i].desc.as_str()),
            None => None,
        }
    }

    /// Creates or overwrites an environment value; an empty name is
    /// refused.
    pub fn set_env_var_value(&mut self, name: &str, val: VariableType<N>) -> (r: bool)
        requires
            old(self).wf(),
            vt_wf(val),
        ensures
            final(self).wf(),
            final(self).vars() == old(self).vars(),
            final(self).temps() == old(self).temps(),
            final(self).ans_val() == old(self).ans_val(),
            r == (name@.len() > 0 || has_name(old(self).envs(), name@)),
            !r ==> final(self).envs() == old(self).envs(),
            r ==> exists|i: int|
                first_match(final(self).envs(), name@, i) && (#[trigger] final(self).envs()[i]).data
                    == val,
    {
        match find_in(&self.env_vars, name) {
            Some(i) => {
                self.env_vars[i].data = val;
                proof {
                    assert(first_match(self.env_vars@, name@, i as int));
                }
                true
            },
            None => {
                match VarStorageEntry::new(name, val, false) {
                    Some(entry) => {
                        let ghost before = self.env_vars@;
                        self.env_vars.push(entry);
                        proof {
                            assert(first_match(self.env_vars@, name@, before.len() as int));
                        }
                        true
                    },
                    None => false,
                }
            },
        }
    }

    /// Replaces the description of an environment value; an unknown name
    /// is refused.
    pub fn set_env_var_desc(&mut self, name: &str, desc: Option<String>) -> (r: bool)
        requires
            old(self).wf(),
        ensures
            final(self).wf(),
            r == has_name(old(self).envs(), name@),
            !r ==> final(self).envs() == old(self).envs(),
    {
        match find_in(&self.env_vars, name) {
            Some(i) => {
                match desc {
                    Some(d) => {
                        self.env_vars[i].desc = d;
                    },
                    None => {
                        self.env_vars[i].desc = String::new();
                    },
                }
                true
            },
            None => false,
        }
    }

    /// The last computed answer; absent until something succeeds.
    pub fn get_ans(&self) -> (r: &VariableType<N>)
        ensures
            *r == self.ans_val(),
    {
        &self.ans
    }

    pub fn set_ans(&mut self, new_ans: VariableType<N>) -> (r: bool)
        requires
            old(self).wf(),
            vt_wf(new_ans),
        ensures
            r,
            final(self).wf(),
            final(self).ans_val() == new_ans,
            final(self).vars() == old(self).vars(),
            final(self).temps() == old(self).temps(),
            final(self).envs() == old(self).envs(),
    {
        self.ans = new_ans;
        true
    }
}

} // verus!
