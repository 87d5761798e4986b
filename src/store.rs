use vstd::prelude::*;
use crate::search::{last_where, lemma_last_where, lemma_last_where_step};
use crate::value_check::conforms;

verus! {

/// A named deployment target.
pub struct Environment {
    pub id: u64,
    pub name: String,
    pub namespace: String,
}

/// A named grouping of configuration keys.
pub struct Section {
    pub id: u64,
    pub name: String,
}

/// A kind of value (string, integer, boolean, secret, ...).
pub struct ValueType {
    pub id: u64,
    pub name: String,
}

/// The canonical value of a key of a section, absent any override.
pub struct DefaultValue {
    pub id: u64,
    pub section_id: u64,
    pub key: String,
    pub value: String,
    pub value_type_id: u64,
}

/// A concrete value for a key of a section, linked to the default it overrides, if any.
pub struct ConfigValue {
    pub id: u64,
    pub section_id: u64,
    pub key: String,
    pub value: String,
    pub value_type_id: u64,
    pub default_id: Option<u64>,
}

/// Associates a config value with the environment it applies to.
pub struct EnvConfigValue {
    pub environment_id: u64,
    pub config_value_id: u64,
}

#[derive(Debug, Clone, Copy, PartialEq, Eq, Structural)]
pub enum StoreError {
    EnvironmentNotFound,
    SectionNotFound,
    ValueTypeNotFound,
    ConfigValueNotFound,
    /// A section that defaults or config values still refer to cannot be deleted.
    SectionInUse,
    /// The value is not representable under its declared value type.
    TypeMismatch,
}

/// The configuration catalog: append-only history of values, with defaults and environments.
///
/// Environments, value types, defaults, config values and environment links are never
/// removed, and each row's identity is its position plus one. Sections may be deleted,
/// so they take their identities from a counter.
pub struct ConfigStore {
    pub environments: Vec<Environment>,
    pub sections: Vec<Section>,
    pub value_types: Vec<ValueType>,
    pub defaults: Vec<DefaultValue>,
    pub config_values: Vec<ConfigValue>,
    pub env_config_values: Vec<EnvConfigValue>,
    pub next_section_id: u64,
}

pub open spec fn opt_index(r: Option<usize>) -> Option<int> {
    match r {
        Some(i) => Some(i as int),
        None => None,
    }
}

pub open spec fn env_named(name: Seq<char>) -> spec_fn(Environment) -> bool {
    |e: Environment| e.name@ == name
}

pub open spec fn section_named(name: Seq<char>) -> spec_fn(Section) -> bool {
    |s: Section| s.name@ == name
}

pub open spec fn type_named(name: Seq<char>) -> spec_fn(ValueType) -> bool {
    |t: ValueType| t.name@ == name
}

pub open spec fn default_for(section_id: u64, key: Seq<char>) -> spec_fn(DefaultValue) -> bool {
    |d: DefaultValue| d.section_id == section_id && d.key@ == key
}

/// The mathematical value of a store: its tables as sequences of rows.
pub struct StoreView {
    pub environments: Seq<Environment>,
    pub sections: Seq<Section>,
    pub value_types: Seq<ValueType>,
    pub defaults: Seq<DefaultValue>,
    pub config_values: Seq<ConfigValue>,
    pub env_config_values: Seq<EnvConfigValue>,
    pub next_section_id: u64,
}

impl View for ConfigStore {
    type V = StoreView;

    open spec fn view(&self) -> StoreView {
        StoreView {
            environments: self.environments@,
            sections: self.sections@,
            value_types: self.value_types@,
            defaults: self.defaults@,
            config_values: self.config_values@,
            env_config_values: self.env_config_values@,
            next_section_id: self.next_section_id,
        }
    }
}

impl StoreView {
    /// The store's internal invariant: identities as described on `ConfigStore`; names of
    /// environments, sections and value types unique; one default per section and key;
    /// every default and config value in an existing section and conforming to an existing
    /// value type; every link between an existing environment and an existing config value.
    pub open spec fn wf(&self) -> bool {
        &&& forall|i: int|
            0 <= i < self.environments.len() ==> #[trigger] self.environments[i].id == i + 1
        &&& forall|i: int, j: int|
            0 <= i < self.environments.len() && 0 <= j < self.environments.len()
                && #[trigger] self.environments[i].name@ == #[trigger] self.environments[j].name@
                ==> i == j
        &&& forall|i: int|
            0 <= i < self.sections.len() ==> #[trigger] self.sections[i].id
                < self.next_section_id
        &&& forall|i: int, j: int|
            0 <= i < self.sections.len() && 0 <= j < self.sections.len()
                && #[trigger] self.sections[i].id == #[trigger] self.sections[j].id ==> i == j
        &&& forall|i: int, j: int|
            0 <= i < self.sections.len() && 0 <= j < self.sections.len()
                && #[trigger] self.sections[i].name@ == #[trigger] self.sections[j].name@
                ==> i == j
        &&& forall|i: int|
            0 <= i < self.value_types.len() ==> #[trigger] self.value_types[i].id == i + 1
        &&& forall|i: int, j: int|
            0 <= i < self.value_types.len() && 0 <= j < self.value_types.len()
                && #[trigger] self.value_types[i].name@ == #[trigger] self.value_types[j].name@
                ==> i == j
        &&& forall|i: int| 0 <= i < self.defaults.len() ==> #[trigger] self.defaults[i].id == i + 1
        &&& forall|i: int, j: int|
            0 <= i < self.defaults.len() && 0 <= j < self.defaults.len()
                && #[trigger] default_for(self.defaults[i].section_id, self.defaults[i].key@)(
                self.defaults[j],
            ) ==> i == j
        &&& forall|i: int|
            0 <= i < self.config_values.len() ==> #[trigger] self.config_values[i].id == i + 1
        &&& forall|i: int|
            0 <= i < self.defaults.len() ==> self.has_section_id(
                (#[trigger] self.defaults[i]).section_id,
            ) && self.well_typed(self.defaults[i].value_type_id, self.defaults[i].value@)
        &&& forall|i: int|
            0 <= i < self.config_values.len() ==> self.has_section_id(
                (#[trigger] self.config_values[i]).section_id,
            ) && self.well_typed(self.config_values[i].value_type_id, self.config_values[i].value@)
        &&& forall|i: int|
            0 <= i < self.env_config_values.len() ==> 1 <= (#[trigger] self.env_config_values[i]).environment_id
                <= self.environments.len() && 1 <= self.env_config_values[i].config_value_id
                <= self.config_values.len()
    }

    /// Some section has the identity `id`.
    pub open spec fn has_section_id(&self, id: u64) -> bool {
        exists|j: int| 0 <= j < self.sections.len() && #[trigger] self.sections[j].id == id
    }

    /// `type_id` names a value type, and `value` conforms to it.
    pub open spec fn well_typed(&self, type_id: u64, value: Seq<char>) -> bool {
        &&& 1 <= type_id <= self.value_types.len()
        &&& conforms(self.value_types[type_id - 1].name@, value)
    }

    /// Every table can take one more row, and the section counter one more identity.
    pub open spec fn room(&self) -> bool {
        &&& self.environments.len() < usize::MAX
        &&& self.value_types.len() < usize::MAX
        &&& self.defaults.len() < usize::MAX
        &&& self.config_values.len() < usize::MAX
        &&& self.env_config_values.len() < usize::MAX
        &&& self.next_section_id < u64::MAX
    }

    pub open spec fn env_index(&self, name: Seq<char>) -> Option<int> {
        last_where(self.environments, env_named(name))
    }

    pub open spec fn section_index(&self, name: Seq<char>) -> Option<int> {
        last_where(self.sections, section_named(name))
    }

    pub open spec fn type_index(&self, name: Seq<char>) -> Option<int> {
        last_where(self.value_types, type_named(name))
    }

    pub open spec fn default_index(&self, section_id: u64, key: Seq<char>) -> Option<int> {
        last_where(self.defaults, default_for(section_id, key))
    }

}

impl ConfigStore {
    /// An empty store.
    pub fn new() -> (r: ConfigStore)
        ensures
            r@.wf(),
            r@.room(),
            r.environments@.len() == 0,
            r.sections@.len() == 0,
            r.value_types@.len() == 0,
            r.defaults@.len() == 0,
            r.config_values@.len() == 0,
            r.env_config_values@.len() == 0,
    {
        ConfigStore {
            environments: Vec::new(),
            sections: Vec::new(),
            value_types: Vec::new(),
            defaults: Vec::new(),
            config_values: Vec::new(),
            env_config_values: Vec::new(),
            next_section_id: 1,
        }
    }

    /// Whether every table can take one more row.
    pub fn has_room(&self) -> (r: bool)
        ensures
            r == self@.room(),
    {
        self.environments.len() < usize::MAX && self.value_types.len() < usize::MAX
            && self.defaults.len() < usize::MAX && self.config_values.len() < usize::MAX
            && self.env_config_values.len() < usize::MAX && self.next_section_id < u64::MAX
    }

    pub fn find_environment(&self, name: &String) -> (r: Option<usize>)
        ensures
            opt_index(r) == self@.env_index(name@),
            r is Some ==> r->0 < self@.environments.len(),
    {
        let mut found: Option<usize> = None;
        let mut i: usize = 0;
        while i < self.environments.len()
            invariant
                i <= self.environments@.len(),
                opt_index(found) == last_where(self.environments@.take(i as int), env_named(name@)),
            decreases self.environments@.len() - i,
        {
            proof {
                lemma_last_where_step(self.environments@, env_named(name@), i as int);
            }
            if self.environments[i].name == *name {
                found = Some(i);
            }
            i = i + 1;
        }
        assert(self.environments@.take(i as int) =~= self.environments@);
        proof {
            lemma_last_where(self.environments@, env_named(name@));
        }
        found
    }

    pub fn find_section(&self, name: &String) -> (r: Option<usize>)
        ensures
            opt_index(r) == self@.section_index(name@),
            r is Some ==> r->0 < self@.sections.len(),
    {
        let mut found: Option<usize> = None;
        let mut i: usize = 0;
        while i < self.sections.len()
            invariant
                i <= self.sections@.len(),
                opt_index(found) == last_where(self.sections@.take(i as int), section_named(name@)),
            decreases self.sections@.len() - i,
        {
            proof {
                lemma_last_where_step(self.sections@, section_named(name@), i as int);
            }
            if self.sections[i].name == *name {
                found = Some(i);
            }
            i = i + 1;
        }
        assert(self.sections@.take(i as int) =~= self.sections@);
        proof {
            lemma_last_where(self.sections@, section_named(name@));
        }
        found
    }

    pub fn find_value_type(&self, name: &String) -> (r: Option<usize>)
        ensures
            opt_index(r) == self@.type_index(name@),
            r is Some ==> r->0 < self@.value_types.len(),
    {
        let mut found: Option<usize> = None;
        let mut i: usize = 0;
        while i < self.value_types.len()
            invariant
                i <= self.value_types@.len(),
                opt_index(found) == last_where(self.value_types@.take(i as int), type_named(name@)),
            decreases self.value_types@.len() - i,
        {
            proof {
                lemma_last_where_step(self.value_types@, type_named(name@), i as int);
            }
            if self.value_types[i].name == *name {
                found = Some(i);
            }
            i = i + 1;
        }
        assert(self.value_types@.take(i as int) =~= self.value_types@);
        proof {
            lemma_last_where(self.value_types@, type_named(name@));
        }
        found
    }

    pub fn find_default(&self, section_id: u64, key: &String) -> (r: Option<usize>)
        ensures
            opt_index(r) == self@.default_index(section_id, key@),
            r is Some ==> r->0 < self@.defaults.len(),
    {
        let mut found: Option<usize> = None;
        let mut i: usize = 0;
        while i < self.defaults.len()
            invariant
                i <= self.defaults@.len(),
                opt_index(found) == last_where(
                    self.defaults@.take(i as int),
                    default_for(section_id, key@),
                ),
            decreases self.defaults@.len() - i,
        {
            proof {
                lemma_last_where_step(self.defaults@, default_for(section_id, key@), i as int);
            }
            if self.defaults[i].section_id == section_id && self.defaults[i].key == *key {
                found = Some(i);
            }
            i = i + 1;
        }
        assert(self.defaults@.take(i as int) =~= self.defaults@);
        proof {
            lemma_last_where(self.defaults@, default_for(section_id, key@));
        }
        found
    }
}

} // verus!
