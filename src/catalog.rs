use vstd::prelude::*;
use crate::search::lemma_last_where;
use crate::store::{
    ConfigStore, ConfigValue, DefaultValue, EnvConfigValue, Environment, Section, StoreError,
    StoreView, ValueType, env_named, section_named, type_named, default_for,
};
use crate::value_check::{conforms, value_conforms};

verus! {

/// What `upsert_environment` does: an existing environment is left as it is, namespace
/// included; a new one is appended.
pub open spec fn upsert_environment_post(
    old: StoreView,
    name: Seq<char>,
    namespace: Seq<char>,
    new: StoreView,
    r: u64,
) -> bool {
    match old.env_index(name) {
        Some(i) => new == old && r == old.environments[i].id,
        None => {
            &&& r == old.environments.len() + 1
            &&& new.environments.len() == old.environments.len() + 1
            &&& new.environments.drop_last() == old.environments
            &&& new.environments.last().id == r
            &&& new.environments.last().name@ == name
            &&& new.environments.last().namespace@ == namespace
            &&& new == (StoreView { environments: new.environments, ..old })
        }
    }
}

/// What `add_section` does: an existing section keeps its identity; a new one takes the
/// next identity of the counter.
pub open spec fn add_section_post(old: StoreView, name: Seq<char>, new: StoreView, r: u64) -> bool {
    match old.section_index(name) {
        Some(i) => new == old && r == old.sections[i].id,
        None => {
            &&& r == old.next_section_id
            &&& new.sections.len() == old.sections.len() + 1
            &&& new.sections.drop_last() == old.sections
            &&& new.sections.last().id == r
            &&& new.sections.last().name@ == name
            &&& new == (StoreView {
                sections: new.sections,
                next_section_id: (old.next_section_id + 1) as u64,
                ..old
            })
        }
    }
}

/// What `add_value_type` does: an existing value type keeps its identity.
pub open spec fn add_value_type_post(old: StoreView, name: Seq<char>, new: StoreView, r: u64) -> bool {
    match old.type_index(name) {
        Some(i) => new == old && r == old.value_types[i].id,
        None => {
            &&& r == old.value_types.len() + 1
            &&& new.value_types.len() == old.value_types.len() + 1
            &&& new.value_types.drop_last() == old.value_types
            &&& new.value_types.last().id == r
            &&& new.value_types.last().name@ == name
            &&& new == (StoreView { value_types: new.value_types, ..old })
        }
    }
}

impl StoreView {
    /// Some default or config value refers to the section with identity `id`.
    pub open spec fn section_referenced(&self, id: u64) -> bool {
        ||| exists|j: int| 0 <= j < self.defaults.len() && #[trigger] self.defaults[j].section_id == id
        ||| exists|j: int|
            0 <= j < self.config_values.len() && #[trigger] self.config_values[j].section_id == id
    }

    /// Why a value for `section` of type `value_type` would be refused, if it would.
    pub open spec fn value_error(
        &self,
        section: Seq<char>,
        value: Seq<char>,
        value_type: Seq<char>,
    ) -> Option<StoreError> {
        if self.section_index(section) is None {
            Some(StoreError::SectionNotFound)
        } else if self.type_index(value_type) is None {
            Some(StoreError::ValueTypeNotFound)
        } else if !conforms(value_type, value) {
            Some(StoreError::TypeMismatch)
        } else {
            None
        }
    }
}

impl StoreView {
    /// A value that `value_error` accepts names an existing section, and conforms to the
    /// value type that it names.
    pub proof fn lemma_accepted_value(&self, section: Seq<char>, value: Seq<char>, value_type: Seq<char>)
        requires
            self.wf(),
            self.value_error(section, value, value_type) is None,
        ensures
            self.has_section_id(self.sections[self.section_index(section)->0].id),
            self.well_typed(self.value_types[self.type_index(value_type)->0].id, value),
    {
        lemma_last_where(self.sections, section_named(section));
        lemma_last_where(self.value_types, type_named(value_type));
        let si = self.section_index(section)->0;
        let ti = self.type_index(value_type)->0;
        assert(self.sections[si].id == self.sections[si].id);
        assert(self.value_types[ti].id == ti + 1);
    }
}

/// What `delete_section` does: nothing, with no rows affected, when no section has that
/// name; nothing, with an error, while the section is referenced; else one row removed.
pub open spec fn delete_section_post(
    old: StoreView,
    name: Seq<char>,
    new: StoreView,
    r: Result<u64, StoreError>,
) -> bool {
    match old.section_index(name) {
        None => new == old && r == Ok::<u64, StoreError>(0),
        Some(i) => if old.section_referenced(old.sections[i].id) {
            new == old && r == Err::<u64, StoreError>(StoreError::SectionInUse)
        } else {
            new == (StoreView { sections: old.sections.remove(i), ..old }) && r == Ok::<
                u64,
                StoreError,
            >(1)
        },
    }
}

/// What `set_config_value` does: on success a new config value is appended, linked to the
/// default of the same section and key if there is one.
pub open spec fn set_config_value_post(
    old: StoreView,
    section: Seq<char>,
    key: Seq<char>,
    value: Seq<char>,
    value_type: Seq<char>,
    new: StoreView,
    r: Result<u64, StoreError>,
) -> bool {
    match old.value_error(section, value, value_type) {
        Some(e) => new == old && r == Err::<u64, StoreError>(e),
        None => {
            let sid = old.sections[old.section_index(section)->0].id;
            let cv = new.config_values.last();
            &&& r == Ok::<u64, StoreError>((old.config_values.len() + 1) as u64)
            &&& new.config_values.len() == old.config_values.len() + 1
            &&& new.config_values.drop_last() == old.config_values
            &&& cv.id == old.config_values.len() + 1
            &&& cv.section_id == sid
            &&& cv.key@ == key
            &&& cv.value@ == value
            &&& cv.value_type_id == old.value_types[old.type_index(value_type)->0].id
            &&& cv.default_id == match old.default_index(sid, key) {
                Some(d) => Some(old.defaults[d].id),
                None => None,
            }
            &&& new == (StoreView { config_values: new.config_values, ..old })
        }
    }
}

/// What `set_default` does: on success the default of the section and key is replaced in
/// place, keeping its identity, or appended if there was none.
pub open spec fn set_default_post(
    old: StoreView,
    section: Seq<char>,
    key: Seq<char>,
    value: Seq<char>,
    value_type: Seq<char>,
    new: StoreView,
    r: Result<u64, StoreError>,
) -> bool {
    match old.value_error(section, value, value_type) {
        Some(e) => new == old && r == Err::<u64, StoreError>(e),
        None => {
            let sid = old.sections[old.section_index(section)->0].id;
            let tid = old.value_types[old.type_index(value_type)->0].id;
            match old.default_index(sid, key) {
                Some(d) => {
                    let nd = new.defaults[d];
                    &&& r == Ok::<u64, StoreError>(old.defaults[d].id)
                    &&& new.defaults.len() == old.defaults.len()
                    &&& forall|j: int|
                        0 <= j < old.defaults.len() && j != d ==> new.defaults[j] == old.defaults[j]
                    &&& nd.id == old.defaults[d].id && nd.section_id == sid && nd.key@ == key
                    &&& nd.value@ == value && nd.value_type_id == tid
                    &&& new == (StoreView { defaults: new.defaults, ..old })
                },
                None => {
                    let nd = new.defaults.last();
                    &&& r == Ok::<u64, StoreError>((old.defaults.len() + 1) as u64)
                    &&& new.defaults.len() == old.defaults.len() + 1
                    &&& new.defaults.drop_last() == old.defaults
                    &&& nd.id == old.defaults.len() + 1 && nd.section_id == sid && nd.key@ == key
                    &&& nd.value@ == value && nd.value_type_id == tid
                    &&& new == (StoreView { defaults: new.defaults, ..old })
                },
            }
        },
    }
}

/// What `add_env_cfg_value` does: links an existing config value to an existing environment.
pub open spec fn add_env_cfg_value_post(
    old: StoreView,
    env_id: u64,
    cfg_id: u64,
    new: StoreView,
    r: Result<u64, StoreError>,
) -> bool {
    if !(1 <= env_id <= old.environments.len()) {
        new == old && r == Err::<u64, StoreError>(StoreError::EnvironmentNotFound)
    } else if !(1 <= cfg_id <= old.config_values.len()) {
        new == old && r == Err::<u64, StoreError>(StoreError::ConfigValueNotFound)
    } else {
        &&& r == Ok::<u64, StoreError>((old.env_config_values.len() + 1) as u64)
        &&& new == (StoreView {
            env_config_values: old.env_config_values.push(
                EnvConfigValue { environment_id: env_id, config_value_id: cfg_id },
            ),
            ..old
        })
    }
}

impl ConfigStore {
    /// Inserts the environment if no environment has that name, and returns its identity.
    /// The namespace of an existing environment is never changed.
    pub fn upsert_environment(&mut self, name: &str, namespace: &str) -> (r: u64)
        requires
            old(self)@.wf(),
            old(self)@.room(),
        ensures
            final(self)@.wf(),
            upsert_environment_post(old(self)@, name@, namespace@, final(self)@, r),
    {
        let name_s = name.to_owned();
        match self.find_environment(&name_s) {
            Some(i) => self.environments[i].id,
            None => {
                proof {
                    lemma_last_where(self@.environments, env_named(name@));
                }
                let id = (self.environments.len() + 1) as u64;
                self.environments.push(
                    Environment { id, name: name_s, namespace: namespace.to_owned() },
                );
                proof {
                    assert(self@.sections == old(self)@.sections);
                    assert(self@.environments.drop_last() =~= old(self)@.environments);
                    assert forall|i: int| 0 <= i < old(self)@.environments.len() implies
                        self@.environments[i] == old(self)@.environments[i] by {}
                    assert forall|a: int| 0 <= a < old(self)@.environments.len() implies
                        #[trigger] self@.environments[a].name@ != name@ by {
                        assert(!env_named(name@)(old(self)@.environments[a]));
                    }
                }
                id
            },
        }
    }

    /// The identity of the environment with that name, or `None` if there is none.
    pub fn get_env_id(&self, name: &str) -> (r: Option<u64>)
        ensures
            r == match self@.env_index(name@) {
                Some(i) => Some(self@.environments[i].id),
                None => None::<u64>,
            },
    {
        let name_s = name.to_owned();
        match self.find_environment(&name_s) {
            Some(i) => Some(self.environments[i].id),
            None => None,
        }
    }

    /// Inserts the section if no section has that name, and returns its identity.
    pub fn add_section(&mut self, name: &str) -> (r: u64)
        requires
            old(self)@.wf(),
            old(self)@.room(),
        ensures
            final(self)@.wf(),
            add_section_post(old(self)@, name@, final(self)@, r),
    {
        let name_s = name.to_owned();
        match self.find_section(&name_s) {
            Some(i) => self.sections[i].id,
            None => {
                proof {
                    lemma_last_where(self@.sections, section_named(name@));
                }
                let id = self.next_section_id;
                self.sections.push(Section { id, name: name_s });
                self.next_section_id = id + 1;
                proof {
                    assert(self@.sections.drop_last() =~= old(self)@.sections);
                    assert forall|i: int| 0 <= i < old(self)@.sections.len() implies
                        self@.sections[i] == old(self)@.sections[i] by {}
                    assert forall|a: int| 0 <= a < old(self)@.sections.len() implies
                        #[trigger] self@.sections[a].name@ != name@ by {
                        assert(!section_named(name@)(old(self)@.sections[a]));
                    }
                }
                id
            },
        }
    }

    /// An empty store seeded with the value types `string`, `integer`, `boolean` and
    /// `secret`, with identities 1 to 4.
    pub fn seeded() -> (r: ConfigStore)
        ensures
            r@.wf(),
            r@.room(),
            r@.environments.len() == 0,
            r@.sections.len() == 0,
            r@.defaults.len() == 0,
            r@.config_values.len() == 0,
            r@.env_config_values.len() == 0,
            r@.value_types.len() == 4,
            r@.value_types[0].name@ == "string"@,
            r@.value_types[1].name@ == "integer"@,
            r@.value_types[2].name@ == "boolean"@,
            r@.value_types[3].name@ == "secret"@,
    {
        let mut store = ConfigStore::new();
        proof {
            reveal_strlit("string");
            reveal_strlit("integer");
            reveal_strlit("boolean");
            reveal_strlit("secret");
        }
        store.add_value_type("string");
        proof {
            assert("string"@[0] != "integer"@[0]);
            lemma_last_where(store@.value_types, type_named("integer"@));
        }
        store.add_value_type("integer");
        proof {
            assert("string"@[0] != "boolean"@[0] && "integer"@[0] != "boolean"@[0]);
            lemma_last_where(store@.value_types, type_named("boolean"@));
        }
        store.add_value_type("boolean");
        proof {
            assert("string"@[1] != "secret"@[1] && "integer"@[0] != "secret"@[0]);
            assert("boolean"@[0] != "secret"@[0]);
            lemma_last_where(store@.value_types, type_named("secret"@));
        }
        store.add_value_type("secret");
        store
    }

    /// Inserts the value type if none has that name, and returns its identity.
    pub fn add_value_type(&mut self, name: &str) -> (r: u64)
        requires
            old(self)@.wf(),
            old(self)@.room(),
        ensures
            final(self)@.wf(),
            add_value_type_post(old(self)@, name@, final(self)@, r),
    {
        let name_s = name.to_owned();
        match self.find_value_type(&name_s) {
            Some(i) => self.value_types[i].id,
            None => {
                proof {
                    lemma_last_where(self@.value_types, type_named(name@));
                }
                let id = (self.value_types.len() + 1) as u64;
                self.value_types.push(ValueType { id, name: name_s });
                proof {
                    assert(self@.sections == old(self)@.sections);
                    assert(self@.value_types.drop_last() =~= old(self)@.value_types);
                    assert forall|i: int| 0 <= i < old(self)@.value_types.len() implies
                        self@.value_types[i] == old(self)@.value_types[i] by {}
                    assert forall|a: int| 0 <= a < old(self)@.value_types.len() implies
                        #[trigger] self@.value_types[a].name@ != name@ by {
                        assert(!type_named(name@)(old(self)@.value_types[a]));
                    }
                }
                id
            },
        }
    }

    fn section_in_use(&self, id: u64) -> (r: bool)
        ensures
            r == self@.section_referenced(id),
    {
        let mut i: usize = 0;
        while i < self.defaults.len()
            invariant
                i <= self.defaults@.len(),
                forall|j: int| 0 <= j < i ==> self.defaults@[j].section_id != id,
            decreases self.defaults@.len() - i,
        {
            if self.defaults[i].section_id == id {
                assert(self@.defaults[i as int].section_id == id);
                return true;
            }
            i = i + 1;
        }
        let mut k: usize = 0;
        while k < self.config_values.len()
            invariant
                k <= self.config_values@.len(),
                forall|j: int| 0 <= j < self.defaults@.len() ==> self.defaults@[j].section_id != id,
                forall|j: int| 0 <= j < k ==> self.config_values@[j].section_id != id,
            decreases self.config_values@.len() - k,
        {
            if self.config_values[k].section_id == id {
                assert(self@.config_values[k as int].section_id == id);
                return true;
            }
            k = k + 1;
        }
        false
    }

    /// Deletes the section with that name and returns the number of rows removed: zero,
    /// and no error, when there is no such section. A section that defaults or config
    /// values still refer to is not deleted.
    pub fn delete_section(&mut self, name: &str) -> (r: Result<u64, StoreError>)
        requires
            old(self)@.wf(),
        ensures
            final(self)@.wf(),
            delete_section_post(old(self)@, name@, final(self)@, r),
    {
        let name_s = name.to_owned();
        match self.find_section(&name_s) {
            None => Ok(0),
            Some(i) => {
                if self.section_in_use(self.sections[i].id) {
                    Err(StoreError::SectionInUse)
                } else {
                    self.sections.remove(i);
                    proof {
                        assert(self@.sections == old(self)@.sections.remove(i as int));
                        assert(self@ == (StoreView {
                            sections: old(self)@.sections.remove(i as int),
                            ..old(self)@
                        }));
                        let o = old(self)@.sections;
                        let n = self@.sections;
                        assert forall|a: int| 0 <= a < n.len() implies #[trigger] n[a] == o[if a
                            < i {
                            a
                        } else {
                            a + 1
                        }] by {}
                        assert forall|a: int, b: int|
                            0 <= a < n.len() && 0 <= b < n.len() && #[trigger] n[a].id
                                == #[trigger] n[b].id implies a == b by {
                            let oa = if a < i { a } else { a + 1 };
                            let ob = if b < i { b } else { b + 1 };
                            assert(n[a] == o[oa] && n[b] == o[ob]);
                        }
                        assert forall|a: int, b: int|
                            0 <= a < n.len() && 0 <= b < n.len() && #[trigger] n[a].name@
                                == #[trigger] n[b].name@ implies a == b by {
                            let oa = if a < i { a } else { a + 1 };
                            let ob = if b < i { b } else { b + 1 };
                            assert(n[a] == o[oa] && n[b] == o[ob]);
                        }
                        let gone = o[i as int].id;
                        assert forall|k: int| 0 <= k < self@.defaults.len() implies self@.has_section_id(
                            (#[trigger] self@.defaults[k]).section_id,
                        ) by {
                            let id = self@.defaults[k].section_id;
                            assert(old(self)@.defaults[k] == self@.defaults[k]);
                            assert(old(self)@.has_section_id(id));
                            let j = choose|j: int| 0 <= j < o.len() && #[trigger] o[j].id == id;
                            assert(id != gone);
                            let nj = if j < i { j } else { j - 1 };
                            assert(n[nj] == o[j]);
                        }
                        assert forall|k: int| 0 <= k < self@.config_values.len() implies self@.has_section_id(
                            (#[trigger] self@.config_values[k]).section_id,
                        ) by {
                            let id = self@.config_values[k].section_id;
                            assert(old(self)@.config_values[k] == self@.config_values[k]);
                            assert(old(self)@.has_section_id(id));
                            let j = choose|j: int| 0 <= j < o.len() && #[trigger] o[j].id == id;
                            assert(id != gone);
                            let nj = if j < i { j } else { j - 1 };
                            assert(n[nj] == o[j]);
                        }
                    }
                    Ok(1)
                }
            },
        }
    }

    /// The names of all sections, in the order of the section table.
    pub fn list_sections(&self) -> (r: Vec<String>)
        ensures
            r@.len() == self@.sections.len(),
            forall|i: int| 0 <= i < r@.len() ==> #[trigger] r@[i]@ == self@.sections[i].name@,
    {
        let mut out: Vec<String> = Vec::new();
        let mut i: usize = 0;
        while i < self.sections.len()
            invariant
                i <= self.sections@.len(),
                out@.len() == i,
                forall|j: int| 0 <= j < i ==> #[trigger] out@[j]@ == self@.sections[j].name@,
            decreases self.sections@.len() - i,
        {
            out.push(self.sections[i].name.clone());
            i = i + 1;
        }
        out
    }

    /// Resolves the section and value type of a new value, and checks the value against
    /// the type: the section's identity and the type's identity, or why the value is refused.
    fn check_value(&self, section: &String, value: &String, value_type: &String) -> (r: Result<
        (u64, u64),
        StoreError,
    >)
        ensures
            match self@.value_error(section@, value@, value_type@) {
                Some(e) => r == Err::<(u64, u64), StoreError>(e),
                None => r == Ok::<(u64, u64), StoreError>(
                    (
                        self@.sections[self@.section_index(section@)->0].id,
                        self@.value_types[self@.type_index(value_type@)->0].id,
                    ),
                ),
            },
    {
        let si = match self.find_section(section) {
            Some(i) => i,
            None => {
                return Err(StoreError::SectionNotFound);
            },
        };
        let ti = match self.find_value_type(value_type) {
            Some(i) => i,
            None => {
                return Err(StoreError::ValueTypeNotFound);
            },
        };
        if !value_conforms(value_type, value) {
            return Err(StoreError::TypeMismatch);
        }
        Ok((self.sections[si].id, self.value_types[ti].id))
    }

    /// Appends a new config value for `key` of `section`, linked to the default of the same
    /// section and key if there is one, and returns its identity. Fails when the section or
    /// the value type does not exist, or when the value does not conform to the type.
    pub fn set_config_value(&mut self, section: &str, key: &str, value: &str, value_type: &str) -> (r:
        Result<u64, StoreError>)
        requires
            old(self)@.wf(),
            old(self)@.room(),
        ensures
            final(self)@.wf(),
            set_config_value_post(
                old(self)@,
                section@,
                key@,
                value@,
                value_type@,
                final(self)@,
                r,
            ),
    {
        let section_s = section.to_owned();
        let value_s = value.to_owned();
        let type_s = value_type.to_owned();
        let key_s = key.to_owned();
        let (sid, tid) = match self.check_value(&section_s, &value_s, &type_s) {
            Ok(p) => p,
            Err(e) => {
                return Err(e);
            },
        };
        let default_id = match self.find_default(sid, &key_s) {
            Some(d) => Some(self.defaults[d].id),
            None => None,
        };
        let id = (self.config_values.len() + 1) as u64;
        self.config_values.push(
            ConfigValue {
                id,
                section_id: sid,
                key: key_s,
                value: value_s,
                value_type_id: tid,
                default_id,
            },
        );
        proof {
            old(self)@.lemma_accepted_value(section@, value@, value_type@);
            assert(self@.sections == old(self)@.sections);
            assert(self@.value_types == old(self)@.value_types);
            assert(self@.config_values.drop_last() =~= old(self)@.config_values);
            let o = old(self)@.config_values;
            let n = self@.config_values;
            assert forall|k: int| 0 <= k < n.len() implies self@.has_section_id(
                (#[trigger] n[k]).section_id,
            ) && self@.well_typed(n[k].value_type_id, n[k].value@) by {
                if k < o.len() {
                    assert(n[k] == o[k]);
                    assert(old(self)@.has_section_id(o[k].section_id));
                }
            }
            assert forall|i: int| 0 <= i < old(self)@.config_values.len() implies
                self@.config_values[i] == old(self)@.config_values[i] by {}
        }
        Ok(id)
    }

    /// Sets the default of `key` of `section`: replaces the existing default in place, keeping
    /// its identity, or appends a new one. Fails as `set_config_value` does.
    pub fn set_default(&mut self, section: &str, key: &str, value: &str, value_type: &str) -> (r:
        Result<u64, StoreError>)
        requires
            old(self)@.wf(),
            old(self)@.room(),
        ensures
            final(self)@.wf(),
            set_default_post(old(self)@, section@, key@, value@, value_type@, final(self)@, r),
    {
        let section_s = section.to_owned();
        let value_s = value.to_owned();
        let type_s = value_type.to_owned();
        let key_s = key.to_owned();
        let (sid, tid) = match self.check_value(&section_s, &value_s, &type_s) {
            Ok(p) => p,
            Err(e) => {
                return Err(e);
            },
        };
        match self.find_default(sid, &key_s) {
            Some(d) => {
                proof {
                    lemma_last_where(self@.defaults, default_for(sid, key_s@));
                }
                let id = self.defaults[d].id;
                self.defaults.set(
                    d,
                    DefaultValue { id, section_id: sid, key: key_s, value: value_s, value_type_id: tid },
                );
                proof {
                    old(self)@.lemma_accepted_value(section@, value@, value_type@);
                    assert(self@.sections == old(self)@.sections);
                    assert(self@.value_types == old(self)@.value_types);
                    let o = old(self)@.defaults;
                    let n = self@.defaults;
                    assert forall|k: int| 0 <= k < n.len() implies self@.has_section_id(
                        (#[trigger] n[k]).section_id,
                    ) && self@.well_typed(n[k].value_type_id, n[k].value@) by {
                        if k != d {
                            assert(n[k] == o[k]);
                            assert(old(self)@.has_section_id(o[k].section_id));
                        }
                    }
                    assert(default_for(sid, key_s@)(o[d as int]));
                    assert forall|i: int, j: int|
                        0 <= i < n.len() && 0 <= j < n.len() && #[trigger] default_for(
                            n[i].section_id,
                            n[i].key@,
                        )(n[j]) implies i == j by {
                        assert(n[i].section_id == o[i].section_id && n[i].key@ == o[i].key@);
                        assert(n[j].section_id == o[j].section_id && n[j].key@ == o[j].key@);
                        assert(default_for(o[i].section_id, o[i].key@)(o[j]));
                    }
                }
                Ok(id)
            },
            None => {
                proof {
                    lemma_last_where(self@.defaults, default_for(sid, key_s@));
                }
                let id = (self.defaults.len() + 1) as u64;
                self.defaults.push(
                    DefaultValue { id, section_id: sid, key: key_s, value: value_s, value_type_id: tid },
                );
                proof {
                    old(self)@.lemma_accepted_value(section@, value@, value_type@);
                    assert(self@.sections == old(self)@.sections);
                    assert(self@.value_types == old(self)@.value_types);
                    let o = old(self)@.defaults;
                    let n = self@.defaults;
                    assert(n.drop_last() =~= o);
                    assert forall|k: int| 0 <= k < n.len() implies self@.has_section_id(
                        (#[trigger] n[k]).section_id,
                    ) && self@.well_typed(n[k].value_type_id, n[k].value@) by {
                        if k < o.len() {
                            assert(n[k] == o[k]);
                            assert(old(self)@.has_section_id(o[k].section_id));
                        }
                    }
                    assert forall|i: int| 0 <= i < o.len() implies n[i] == o[i] by {}
                    assert forall|i: int, j: int|
                        0 <= i < n.len() && 0 <= j < n.len() && #[trigger] default_for(
                            n[i].section_id,
                            n[i].key@,
                        )(n[j]) implies i == j by {
                        if i < o.len() && j < o.len() {
                            assert(default_for(o[i].section_id, o[i].key@)(o[j]));
                        } else if i < o.len() {
                            assert(!default_for(sid, key_s@)(o[i]));
                        } else if j < o.len() {
                            assert(!default_for(sid, key_s@)(o[j]));
                        }
                    }
                }
                Ok(id)
            },
        }
    }

    /// Links the config value `cfg_id` to the environment `env_id` and returns the link's
    /// identity. Both must exist.
    pub fn add_env_cfg_value(&mut self, env_id: u64, cfg_id: u64) -> (r: Result<u64, StoreError>)
        requires
            old(self)@.wf(),
            old(self)@.env_config_values.len() < usize::MAX,
        ensures
            final(self)@.wf(),
            add_env_cfg_value_post(old(self)@, env_id, cfg_id, final(self)@, r),
    {
        if env_id == 0 || env_id > self.environments.len() as u64 {
            return Err(StoreError::EnvironmentNotFound);
        }
        if cfg_id == 0 || cfg_id > self.config_values.len() as u64 {
            return Err(StoreError::ConfigValueNotFound);
        }
        let id = (self.env_config_values.len() + 1) as u64;
        self.env_config_values.push(EnvConfigValue { environment_id: env_id, config_value_id: cfg_id });
        proof {
            assert(self@.sections == old(self)@.sections);
            assert(self@.environments == old(self)@.environments);
            assert(self@.value_types == old(self)@.value_types);
            assert(self@.defaults == old(self)@.defaults);
            assert(self@.config_values == old(self)@.config_values);
            assert forall|i: int| 0 <= i < self@.env_config_values.len() implies 1
                <= (#[trigger] self@.env_config_values[i]).environment_id
                <= self@.environments.len() && 1 <= self@.env_config_values[i].config_value_id
                <= self@.config_values.len() by {
                if i < old(self)@.env_config_values.len() {
                    assert(self@.env_config_values[i] == old(self)@.env_config_values[i]);
                }
            }
        }
        Ok(id)
    }
}

} // verus!
