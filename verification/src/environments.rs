//! The environment store: named sets of variables, at most one of which is
//! active at a time.

use vstd::prelude::*;

use crate::text::str_eq;

verus! {

/// One variable of an environment.
#[derive(Debug)]
pub struct EnvVariable {
    pub key: String,
    pub value: String,
    pub enabled: bool,
    pub is_secret: bool,
}

/// The model of a variable.
pub struct EnvVariableV {
    pub key: Seq<char>,
    pub value: Seq<char>,
    pub enabled: bool,
    pub is_secret: bool,
}

impl View for EnvVariable {
    type V = EnvVariableV;

    open spec fn view(&self) -> EnvVariableV {
        EnvVariableV {
            key: self.key@,
            value: self.value@,
            enabled: self.enabled,
            is_secret: self.is_secret,
        }
    }
}

impl Clone for EnvVariable {
    /// A copy with the same model.
    fn clone(&self) -> (res: Self)
        ensures
            res@ == self@,
    {
        EnvVariable {
            key: self.key.clone(),
            value: self.value.clone(),
            enabled: self.enabled,
            is_secret: self.is_secret,
        }
    }
}

/// One named environment.
#[derive(Debug)]
pub struct Environment {
    pub id: String,
    pub name: String,
    pub description: Option<String>,
    pub variables: Vec<EnvVariable>,
    pub is_active: bool,
}

/// The model of an environment.
pub struct EnvironmentV {
    pub id: Seq<char>,
    pub name: Seq<char>,
    pub description: Option<Seq<char>>,
    pub variables: Seq<EnvVariableV>,
    pub is_active: bool,
}

impl View for Environment {
    type V = EnvironmentV;

    open spec fn view(&self) -> EnvironmentV {
        EnvironmentV {
            id: self.id@,
            name: self.name@,
            description: match self.description {
                Some(d) => Some(d@),
                None => None,
            },
            variables: Seq::new(self.variables@.len(), |i: int| self.variables@[i]@),
            is_active: self.is_active,
        }
    }
}

impl Clone for Environment {
    /// A copy with the same model.
    fn clone(&self) -> (res: Self)
        ensures
            res@ == self@,
    {
        let mut vars: Vec<EnvVariable> = Vec::new();
        let mut i: usize = 0;
        while i < self.variables.len()
            invariant
                i <= self.variables@.len(),
                vars@.len() == i,
                forall|j: int| 0 <= j < i ==> vars@[j]@ == self.variables@[j]@,
            decreases self.variables@.len() - i,
        {
            vars.push(self.variables[i].clone());
            i = i + 1;
        }
        let res = Environment {
            id: self.id.clone(),
            name: self.name.clone(),
            description: match &self.description {
                Some(d) => Some(d.clone()),
                None => None,
            },
            variables: vars,
            is_active: self.is_active,
        };
        proof {
            assert(res@.variables =~= self@.variables);
        }
        res
    }
}

/// The store: the environments in insertion order, and the identifier of
/// the active one, if any.
#[derive(Debug)]
pub struct EnvironmentStore {
    pub environments: Vec<Environment>,
    pub active_environment_id: Option<String>,
}

/// The view of an optional identifier.
pub open spec fn opt_id(o: Option<String>) -> Option<Seq<char>> {
    match o {
        Some(s) => Some(s@),
        None => None,
    }
}

/// The index of the first environment with this identifier, or a negative
/// answer.
pub open spec fn spec_env_index(envs: Seq<EnvironmentV>, id: Seq<char>) -> int
    decreases envs.len(),
{
    if envs.len() == 0 {
        -1
    } else if envs[0].id == id {
        0
    } else {
        let r = spec_env_index(envs.drop_first(), id);
        if r < 0 {
            -1
        } else {
            r + 1
        }
    }
}

/// The first environment with this identifier.
pub open spec fn spec_env_get(envs: Seq<EnvironmentV>, id: Seq<char>) -> Option<EnvironmentV> {
    let i = spec_env_index(envs, id);
    if 0 <= i < envs.len() {
        Some(envs[i])
    } else {
        None
    }
}

/// Replacing a variable: the first one with the same key is overwritten,
/// otherwise the variable is appended.
pub open spec fn spec_var_set(vars: Seq<EnvVariableV>, v: EnvVariableV) -> Seq<EnvVariableV>
    decreases vars.len(),
{
    if vars.len() == 0 {
        seq![v]
    } else if vars[0].key == v.key {
        seq![v] + vars.drop_first()
    } else {
        seq![vars[0]] + spec_var_set(vars.drop_first(), v)
    }
}

/// Removing a key keeps every variable under another key, in order.
pub open spec fn spec_var_remove(vars: Seq<EnvVariableV>, key: Seq<char>) -> Seq<EnvVariableV>
    decreases vars.len(),
{
    if vars.len() == 0 {
        Seq::empty()
    } else if vars[0].key == key {
        spec_var_remove(vars.drop_first(), key)
    } else {
        seq![vars[0]] + spec_var_remove(vars.drop_first(), key)
    }
}

/// `spec_env_index` names the first match: it answers `i` exactly when the
/// identifier first occurs at `i`, and negatively exactly when it does not
/// occur.
proof fn lemma_env_index(envs: Seq<EnvironmentV>, id: Seq<char>)
    ensures
        spec_env_index(envs, id) >= 0 ==> {
            let i = spec_env_index(envs, id);
            &&& i < envs.len()
            &&& envs[i].id == id
            &&& forall|j: int| 0 <= j < i ==> envs[j].id != id
        },
        spec_env_index(envs, id) < 0 ==> forall|j: int|
            0 <= j < envs.len() ==> envs[j].id != id,
    decreases envs.len(),
{
    if envs.len() > 0 {
        lemma_env_index(envs.drop_first(), id);
        if envs[0].id != id {
            let r = spec_env_index(envs.drop_first(), id);
            assert(forall|j: int| 1 <= j < envs.len() ==> envs[j] == envs.drop_first()[j - 1]);
        }
    }
}

/// The converse: a first match at `i` makes the index `i`, and no match
/// makes it negative.
proof fn lemma_env_index_of_first_match(envs: Seq<EnvironmentV>, id: Seq<char>, i: int)
    requires
        0 <= i < envs.len(),
        envs[i].id == id,
        forall|j: int| 0 <= j < i ==> envs[j].id != id,
    ensures
        spec_env_index(envs, id) == i,
    decreases i,
{
    if i > 0 {
        assert(forall|j: int| 1 <= j < envs.len() ==> envs[j] == envs.drop_first()[j - 1]);
        lemma_env_index_of_first_match(envs.drop_first(), id, i - 1);
    }
}

/// No match at all makes the index negative.
proof fn lemma_env_index_no_match(envs: Seq<EnvironmentV>, id: Seq<char>)
    requires
        forall|j: int| 0 <= j < envs.len() ==> envs[j].id != id,
    ensures
        spec_env_index(envs, id) < 0,
    decreases envs.len(),
{
    if envs.len() > 0 {
        assert(forall|j: int| 1 <= j < envs.len() ==> envs[j] == envs.drop_first()[j - 1]);
        lemma_env_index_no_match(envs.drop_first(), id);
    }
}

impl EnvironmentStore {
    /// The models of the stored environments, in order.
    pub open spec fn model(&self) -> Seq<EnvironmentV> {
        Seq::new(self.environments@.len(), |i: int| self.environments@[i]@)
    }

    /// An empty store.
    pub fn new() -> (r: Self)
        ensures
            r.model().len() == 0,
            r.active_environment_id is None,
    {
        EnvironmentStore { environments: Vec::new(), active_environment_id: None }
    }

    /// The index of the first environment with this identifier.
    #[verifier::loop_isolation(false)]
    fn find_index(&self, id: &str) -> (r: Option<usize>)
        ensures
            match r {
                Some(i) => spec_env_index(self.model(), id@) == i as int && i
                    < self.model().len(),
                None => spec_env_index(self.model(), id@) < 0,
            },
    {
        let n = self.environments.len();
        let mut i: usize = 0;
        while i < n
            invariant
                n == self.model().len(),
                i <= n,
                forall|j: int| 0 <= j < i ==> self.model()[j].id != id@,
            decreases n - i,
        {
            if str_eq(self.environments[i].id.as_str(), id) {
                proof {
                    lemma_env_index_of_first_match(self.model(), id@, i as int);
                }
                return Some(i);
            }
            i = i + 1;
        }
        proof {
            lemma_env_index_no_match(self.model(), id@);
        }
        None
    }

    /// A fresh environment with the given name and description, stored and
    /// returned; it starts with no variables and inactive.
    pub fn create_environment(&mut self, name: String, description: Option<String>) -> (r:
        Environment)
        ensures
            r.name == name,
            r.description == description,
            r@.variables.len() == 0,
            !r.is_active,
            r.id@.len() == 36,
            final(self).model() == old(self).model().push(r@),
            final(self).active_environment_id == old(self).active_environment_id,
    {
        let id = crate::ident::fresh_id();
        let environment = Environment {
            id,
            name,
            description,
            variables: Vec::new(),
            is_active: false,
        };
        let stored = environment.clone();
        self.environments.push(stored);
        proof {
            assert(self.model() =~= old(self).model().push(environment@));
        }
        environment
    }

    /// The stored environment with this identifier, if any.
    pub fn get_environment<'a>(&'a self, id: &str) -> (r: Option<&'a Environment>)
        ensures
            match r {
                Some(e) => spec_env_get(self.model(), id@) == Some(e@),
                None => spec_env_get(self.model(), id@) is None,
            },
    {
        match self.find_index(id) {
            Some(i) => Some(&self.environments[i]),
            None => None,
        }
    }

    /// Copies of all stored environments, in order.
    #[verifier::loop_isolation(false)]
    pub fn list_environments(&self) -> (r: Vec<Environment>)
        ensures
            r@.len() == self.model().len(),
            forall|i: int| 0 <= i < r@.len() ==> r@[i]@ == self.model()[i],
    {
        let n = self.environments.len();
        let mut out: Vec<Environment> = Vec::new();
        let mut i: usize = 0;
        while i < n
            invariant
                n == self.environments@.len(),
                i <= n,
                out@.len() == i,
                forall|j: int| 0 <= j < i ==> out@[j]@ == self.model()[j],
            decreases n - i,
        {
            out.push(self.environments[i].clone());
            i = i + 1;
        }
        out
    }

    /// Updates name, description and activity of the environment with this
    /// identifier. Activating it deactivates the previously active one;
    /// deactivating it clears the active identifier. Yields a copy of the
    /// updated environment, or nothing when the identifier is unknown.
    pub fn update_environment(
        &mut self,
        id: &str,
        name: Option<String>,
        description: Option<String>,
        is_active: Option<bool>,
    ) -> (r: Option<Environment>)
        ensures
            spec_env_get(old(self).model(), id@) is None ==> r is None && final(self).model()
                == old(self).model() && final(self).active_environment_id == old(
                self,
            ).active_environment_id,
            spec_env_get(old(self).model(), id@) matches Some(e0) ==> r is Some && {
                let e1 = r->0@;
                let idx = spec_env_index(old(self).model(), id@);
                &&& e1.id == e0.id
                &&& e1.name == match name {
                    Some(n) => n@,
                    None => e0.name,
                }
                &&& e1.description == match description {
                    Some(d) => Some(d@),
                    None => e0.description,
                }
                &&& e1.variables == e0.variables
                &&& e1.is_active == match is_active {
                    Some(b) => b,
                    None => e0.is_active,
                }
                &&& opt_id(final(self).active_environment_id) == match is_active {
                    Some(true) => if !e0.is_active {
                        Some(id@)
                    } else {
                        opt_id(old(self).active_environment_id)
                    },
                    Some(false) => if e0.is_active {
                        None
                    } else {
                        opt_id(old(self).active_environment_id)
                    },
                    None => opt_id(old(self).active_environment_id),
                }
                &&& final(self).model().len() == old(self).model().len()
                &&& final(self).model()[idx] == e1
                &&& forall|j: int|
                    #![trigger old(self).model()[j]]
                    0 <= j < old(self).model().len() && j != idx ==> {
                    let a = old(self).model()[j];
                    let b = final(self).model()[j];
                    &&& b.id == a.id
                    &&& b.name == a.name
                    &&& b.description == a.description
                    &&& b.variables == a.variables
                    &&& (b.is_active ==> a.is_active)
                }
            },
    {
        let idx = match self.find_index(id) {
            Some(i) => i,
            None => {
                return None;
            },
        };
        proof {
            lemma_env_index(self.model(), id@);
        }
        let mut env = self.environments[idx].clone();
        match name {
            Some(n) => {
                env.name = n;
            },
            None => {},
        }
        if description.is_some() {
            env.description = description;
        }
        match is_active {
            Some(true) => {
                if !env.is_active {
                    self.deactivate_current();
                    env.is_active = true;
                    self.active_environment_id = Some(String::from_str(id));
                }
            },
            Some(false) => {
                if env.is_active {
                    env.is_active = false;
                    self.active_environment_id = None;
                }
            },
            None => {},
        }
        let copy = env.clone();
        self.environments.set(idx, env);
        Some(copy)
    }

    /// Clears the active flag of the environment the active identifier
    /// names, leaving everything else as it is.
    fn deactivate_current(&mut self)
        ensures
            final(self).active_environment_id == old(self).active_environment_id,
            final(self).model().len() == old(self).model().len(),
            forall|j: int|
                #![trigger old(self).model()[j]]
                0 <= j < old(self).model().len() ==> {
                let a = old(self).model()[j];
                let b = final(self).model()[j];
                &&& b.id == a.id
                &&& b.name == a.name
                &&& b.description == a.description
                &&& b.variables == a.variables
                &&& (b.is_active ==> a.is_active)
            },
    {
        let aid = match &self.active_environment_id {
            Some(s) => s.clone(),
            None => {
                return ;
            },
        };
        match self.find_index(aid.as_str()) {
            Some(i) => {
                let mut copy = self.environments[i].clone();
                copy.is_active = false;
                self.environments.set(i, copy);
            },
            None => {},
        }
    }

    /// Removes the environment with this identifier; clears the active
    /// identifier when it named the removed one. Yields whether anything was
    /// removed.
    pub fn delete_environment(&mut self, id: &str) -> (r: bool)
        ensures
            spec_env_get(old(self).model(), id@) is None ==> !r && final(self).model() == old(
                self,
            ).model() && final(self).active_environment_id == old(self).active_environment_id,
            spec_env_get(old(self).model(), id@) is Some ==> r && final(self).model() == old(
                self,
            ).model().remove(spec_env_index(old(self).model(), id@)) && opt_id(
                final(self).active_environment_id,
            ) == if opt_id(old(self).active_environment_id) == Some(id@) {
                None::<Seq<char>>
            } else {
                opt_id(old(self).active_environment_id)
            },
    {
        proof {
            lemma_env_index(self.model(), id@);
        }
        match self.find_index(id) {
            Some(i) => {
                let clear = match &self.active_environment_id {
                    Some(aid) => str_eq(aid.as_str(), id),
                    None => false,
                };
                if clear {
                    self.active_environment_id = None;
                }
                self.environments.remove(i);
                proof {
                    assert(self.model() =~= old(self).model().remove(i as int));
                }
                true
            },
            None => false,
        }
    }

    /// Sets or replaces one variable, by key, in the environment with this
    /// identifier; yields a copy of the updated environment, or nothing when
    /// the identifier is unknown.
    #[verifier::loop_isolation(false)]
    pub fn add_variable(&mut self, env_id: &str, variable: EnvVariable) -> (r: Option<
        Environment,
    >)
        ensures
            spec_env_get(old(self).model(), env_id@) is None ==> r is None && final(self).model()
                == old(self).model() && final(self).active_environment_id == old(
                self,
            ).active_environment_id,
            spec_env_get(old(self).model(), env_id@) matches Some(e0) ==> r is Some && {
                let e1 = r->0@;
                let idx = spec_env_index(old(self).model(), env_id@);
                &&& e1 == EnvironmentV { variables: spec_var_set(e0.variables, variable@), ..e0 }
                &&& final(self).model() == old(self).model().update(idx, e1)
                &&& final(self).active_environment_id == old(self).active_environment_id
            },
    {
        proof {
            lemma_env_index(self.model(), env_id@);
        }
        let idx = match self.find_index(env_id) {
            Some(i) => i,
            None => {
                return None;
            },
        };
        let mut env = self.environments[idx].clone();
        let ghost env0 = env@;
        let ghost vars0 = env@.variables;
        let n = env.variables.len();
        let mut i: usize = 0;
        while i < n
            invariant
                n == env.variables@.len(),
                i <= n,
                *self == *old(self),
                env@ == env0,
                env@.variables == vars0,
                forall|j: int| 0 <= j < i ==> vars0[j].key != variable@.key,
            decreases n - i,
        {
            if str_eq(env.variables[i].key.as_str(), variable.key.as_str()) {
                let ghost vv = variable@;
                env.variables.set(i, variable);
                proof {
                    lemma_var_set_at(vars0, vv, i as int);
                    assert(env@.variables =~= vars0.update(i as int, vv));
                }
                let copy = env.clone();
                self.environments.set(idx, env);
                proof {
                    assert(self.model() =~= old(self).model().update(idx as int, copy@));
                }
                return Some(copy);
            }
            i = i + 1;
        }
        let ghost vv = variable@;
        env.variables.push(variable);
        proof {
            lemma_var_set_append(vars0, vv);
            assert(env@.variables =~= vars0.push(vv));
        }
        let copy = env.clone();
        self.environments.set(idx, env);
        proof {
            assert(self.model() =~= old(self).model().update(idx as int, copy@));
        }
        Some(copy)
    }

    /// Removes every variable under this key from the environment with this
    /// identifier; yields a copy of the updated environment, or nothing when
    /// the identifier is unknown.
    #[verifier::loop_isolation(false)]
    pub fn remove_variable(&mut self, env_id: &str, key: &str) -> (r: Option<Environment>)
        ensures
            spec_env_get(old(self).model(), env_id@) is None ==> r is None && final(self).model()
                == old(self).model() && final(self).active_environment_id == old(
                self,
            ).active_environment_id,
            spec_env_get(old(self).model(), env_id@) matches Some(e0) ==> r is Some && {
                let e1 = r->0@;
                let idx = spec_env_index(old(self).model(), env_id@);
                &&& e1 == EnvironmentV {
                    variables: spec_var_remove(e0.variables, key@),
                    ..e0
                }
                &&& final(self).model() == old(self).model().update(idx, e1)
                &&& final(self).active_environment_id == old(self).active_environment_id
            },
    {
        proof {
            lemma_env_index(self.model(), env_id@);
        }
        let idx = match self.find_index(env_id) {
            Some(i) => i,
            None => {
                return None;
            },
        };
        let mut env = self.environments[idx].clone();
        let ghost vars0 = env@.variables;
        let n = env.variables.len();
        let mut kept: Vec<EnvVariable> = Vec::new();
        let mut i: usize = 0;
        proof {
            assert(vars0.skip(0) =~= vars0);
        }
        while i < n
            invariant
                n == env.variables@.len(),
                i <= n,
                env@.variables == vars0,
                spec_var_remove(vars0, key@) == Seq::new(kept@.len(), |j: int| kept@[j]@)
                    + spec_var_remove(vars0.skip(i as int), key@),
            decreases n - i,
        {
            let ghost kept0 = Seq::new(kept@.len(), |j: int| kept@[j]@);
            if !str_eq(env.variables[i].key.as_str(), key) {
                kept.push(env.variables[i].clone());
                proof {
                    assert(Seq::new(kept@.len(), |j: int| kept@[j]@) =~= kept0.push(
                        vars0[i as int],
                    ));
                }
            }
            proof {
                assert(vars0.skip(i as int).drop_first() =~= vars0.skip(i + 1));
                assert(Seq::new(kept@.len(), |j: int| kept@[j]@) + spec_var_remove(
                    vars0.skip(i + 1),
                    key@,
                ) =~= spec_var_remove(vars0, key@));
            }
            i = i + 1;
        }
        proof {
            assert(vars0.skip(n as int) =~= Seq::<EnvVariableV>::empty());
            assert(Seq::new(kept@.len(), |j: int| kept@[j]@) =~= spec_var_remove(vars0, key@));
        }
        env.variables = kept;
        proof {
            assert(env@.variables =~= spec_var_remove(vars0, key@));
        }
        let copy = env.clone();
        self.environments.set(idx, env);
        proof {
            assert(self.model() =~= old(self).model().update(idx as int, copy@));
        }
        Some(copy)
    }

    /// The active environment, if an active identifier is set and names a
    /// stored environment.
    pub fn get_active_environment<'a>(&'a self) -> (r: Option<&'a Environment>)
        ensures
            self.active_environment_id is None ==> r is None,
            self.active_environment_id matches Some(aid) ==> match r {
                Some(e) => spec_env_get(self.model(), aid@) == Some(e@),
                None => spec_env_get(self.model(), aid@) is None,
            },
    {
        match &self.active_environment_id {
            Some(aid) => {
                match self.find_index(aid.as_str()) {
                    Some(i) => Some(&self.environments[i]),
                    None => None,
                }
            },
            None => None,
        }
    }

    /// Makes the environment with this identifier the active one,
    /// deactivating the previous one; yields a copy of it, or nothing when
    /// the identifier is unknown.
    pub fn set_active_environment(&mut self, id: &str) -> (r: Option<Environment>)
        ensures
            spec_env_get(old(self).model(), id@) is None ==> r is None && final(self).model()
                == old(self).model() && final(self).active_environment_id == old(
                self,
            ).active_environment_id,
            spec_env_get(old(self).model(), id@) matches Some(e0) ==> r is Some && {
                let e1 = r->0@;
                let idx = spec_env_index(old(self).model(), id@);
                &&& e1.id == e0.id
                &&& e1.name == e0.name
                &&& e1.description == e0.description
                &&& e1.variables == e0.variables
                &&& e1.is_active
                &&& opt_id(final(self).active_environment_id) == Some(id@)
                &&& final(self).model().len() == old(self).model().len()
                &&& final(self).model()[idx] == e1
                &&& forall|j: int|
                    #![trigger old(self).model()[j]]
                    0 <= j < old(self).model().len() && j != idx ==> {
                    let a = old(self).model()[j];
                    let b = final(self).model()[j];
                    &&& b.id == a.id
                    &&& b.name == a.name
                    &&& b.description == a.description
                    &&& b.variables == a.variables
                    &&& (b.is_active ==> a.is_active)
                }
            },
    {
        proof {
            lemma_env_index(self.model(), id@);
        }
        if self.find_index(id).is_none() {
            return None;
        }
        let ghost mid_check = self.model();
        self.deactivate_current();
        proof {
            lemma_env_index_same_ids(old(self).model(), self.model(), id@);
        }
        match self.find_index(id) {
            Some(i) => {
                let mut env = self.environments[i].clone();
                env.is_active = true;
                self.active_environment_id = Some(String::from_str(id));
                let copy = env.clone();
                self.environments.set(i, env);
                Some(copy)
            },
            None => None,
        }
    }
}

/// Stores whose environments carry the same identifiers in the same order
/// agree on every lookup index.
proof fn lemma_env_index_same_ids(a: Seq<EnvironmentV>, b: Seq<EnvironmentV>, id: Seq<char>)
    requires
        a.len() == b.len(),
        forall|j: int| 0 <= j < a.len() ==> b[j].id == a[j].id,
    ensures
        spec_env_index(b, id) == spec_env_index(a, id),
    decreases a.len(),
{
    if a.len() > 0 {
        lemma_env_index_same_ids(a.drop_first(), b.drop_first(), id);
    }
}

/// `spec_var_set` replaces in place at the first key match.
proof fn lemma_var_set_at(vars: Seq<EnvVariableV>, v: EnvVariableV, i: int)
    requires
        0 <= i < vars.len(),
        vars[i].key == v.key,
        forall|j: int| 0 <= j < i ==> vars[j].key != v.key,
    ensures
        spec_var_set(vars, v) == vars.update(i, v),
    decreases i,
{
    if i == 0 {
        assert(spec_var_set(vars, v) =~= vars.update(0, v));
    } else {
        lemma_var_set_at(vars.drop_first(), v, i - 1);
        assert(spec_var_set(vars, v) =~= vars.update(i, v));
    }
}

/// `spec_var_set` appends when no key matches.
proof fn lemma_var_set_append(vars: Seq<EnvVariableV>, v: EnvVariableV)
    requires
        forall|j: int| 0 <= j < vars.len() ==> vars[j].key != v.key,
    ensures
        spec_var_set(vars, v) == vars.push(v),
    decreases vars.len(),
{
    if vars.len() == 0 {
        assert(spec_var_set(vars, v) =~= vars.push(v));
    } else {
        lemma_var_set_append(vars.drop_first(), v);
        assert(spec_var_set(vars, v) =~= vars.push(v));
    }
}

} // verus!
