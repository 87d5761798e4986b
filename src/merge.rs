use vstd::prelude::*;
use crate::search::{last_where, lemma_last_where, lemma_last_where_step};
use crate::store::{
    ConfigStore, StoreError, ConfigValue, DefaultValue, EnvConfigValue, StoreView, default_for, opt_index,
};

verus! {

/// One resolved key of a section: its value and the identity of its value type.
pub struct ResolvedEntry {
    pub key: String,
    pub value: String,
    pub value_type_id: u64,
}

/// A section with its resolved keys, in a stable order.
pub struct ResolvedSection {
    pub name: String,
    pub entries: Vec<ResolvedEntry>,
}

/// Which sections to resolve: all of them, or those with the given names.
pub enum SectionSelector {
    All,
    Named(Vec<String>),
}

pub open spec fn entry_model(e: ResolvedEntry) -> (Seq<char>, Seq<char>, u64) {
    (e.key@, e.value@, e.value_type_id)
}

pub open spec fn section_model(s: ResolvedSection) -> (Seq<char>, Seq<(Seq<char>, Seq<char>, u64)>) {
    (s.name@, s.entries@.map_values(|e: ResolvedEntry| entry_model(e)))
}

pub open spec fn document_model(d: Seq<ResolvedSection>) -> Seq<
    (Seq<char>, Seq<(Seq<char>, Seq<char>, u64)>),
> {
    d.map_values(|s: ResolvedSection| section_model(s))
}

pub open spec fn string_views(v: Seq<String>) -> Seq<Seq<char>> {
    v.map_values(|s: String| s@)
}

/// Whether the selector picks the section named `name`.
pub open spec fn selects(sel: SectionSelector, name: Seq<char>) -> bool {
    match sel {
        SectionSelector::All => true,
        SectionSelector::Named(names) => string_views(names@).contains(name),
    }
}

/// Appends each element of `s` to `acc` unless it is already there.
pub open spec fn dedup_into(acc: Seq<Seq<char>>, s: Seq<Seq<char>>) -> Seq<Seq<char>>
    decreases s.len(),
{
    if s.len() == 0 {
        acc
    } else {
        let a = dedup_into(acc, s.drop_last());
        if a.contains(s.last()) {
            a
        } else {
            a.push(s.last())
        }
    }
}

/// The keys of the defaults of a section, in the order of the defaults.
pub open spec fn default_keys(ds: Seq<DefaultValue>, section_id: u64) -> Seq<Seq<char>>
    decreases ds.len(),
{
    if ds.len() == 0 {
        Seq::empty()
    } else if ds.last().section_id == section_id {
        default_keys(ds.drop_last(), section_id).push(ds.last().key@)
    } else {
        default_keys(ds.drop_last(), section_id)
    }
}

/// The sections of `secs` that the selector picks, in order.
pub open spec fn selected_sections(secs: Seq<crate::store::Section>, sel: SectionSelector) -> Seq<
    crate::store::Section,
>
    decreases secs.len(),
{
    if secs.len() == 0 {
        Seq::empty()
    } else if selects(sel, secs.last().name@) {
        selected_sections(secs.drop_last(), sel).push(secs.last())
    } else {
        selected_sections(secs.drop_last(), sel)
    }
}

impl StoreView {
    /// The config value that a link points to.
    pub open spec fn linked_value(&self, l: EnvConfigValue) -> ConfigValue {
        self.config_values[l.config_value_id - 1]
    }

    pub open spec fn override_for(&self, env_id: u64, section_id: u64, key: Seq<char>) -> spec_fn(
        EnvConfigValue,
    ) -> bool {
        |l: EnvConfigValue|
            l.environment_id == env_id && self.linked_value(l).section_id == section_id
                && self.linked_value(l).key@ == key
    }

    /// The most recent link of the environment to a value of the section and key.
    pub open spec fn latest_override(&self, env_id: u64, section_id: u64, key: Seq<char>) -> Option<
        int,
    > {
        last_where(self.env_config_values, self.override_for(env_id, section_id, key))
    }

    /// The value of a key of a section in an environment, with its value type: the latest
    /// override of the environment, else the default, else none.
    pub open spec fn resolve_key(&self, env_id: u64, section_id: u64, key: Seq<char>) -> Option<
        (Seq<char>, u64),
    > {
        match self.latest_override(env_id, section_id, key) {
            Some(li) => {
                let cv = self.linked_value(self.env_config_values[li]);
                Some((cv.value@, cv.value_type_id))
            },
            None => match self.default_index(section_id, key) {
                Some(d) => Some((self.defaults[d].value@, self.defaults[d].value_type_id)),
                None => None,
            },
        }
    }

    /// The keys of the section overridden by the environment, in the order of the links.
    pub open spec fn override_keys(&self, ls: Seq<EnvConfigValue>, env_id: u64, section_id: u64) -> Seq<
        Seq<char>,
    >
        decreases ls.len(),
    {
        if ls.len() == 0 {
            Seq::empty()
        } else if ls.last().environment_id == env_id && self.linked_value(ls.last()).section_id
            == section_id {
            self.override_keys(ls.drop_last(), env_id, section_id).push(
                self.linked_value(ls.last()).key@,
            )
        } else {
            self.override_keys(ls.drop_last(), env_id, section_id)
        }
    }

    /// The keys of a section in an environment, each once: the keys of its defaults in the
    /// order of the defaults, then the keys that only overrides introduce, in link order.
    pub open spec fn section_keys(&self, env_id: u64, section_id: u64) -> Seq<Seq<char>> {
        dedup_into(
            dedup_into(Seq::empty(), default_keys(self.defaults, section_id)),
            self.override_keys(self.env_config_values, env_id, section_id),
        )
    }

    /// The resolved entries of a section in an environment.
    pub open spec fn resolved_entries(&self, env_id: u64, section_id: u64) -> Seq<
        (Seq<char>, Seq<char>, u64),
    > {
        self.section_keys(env_id, section_id).map_values(
            |k: Seq<char>|
                {
                    let v = self.resolve_key(env_id, section_id, k)->0;
                    (k, v.0, v.1)
                },
        )
    }

    /// The resolved configuration of an environment: each selected section, in the order
    /// of the section table, with its resolved entries.
    pub open spec fn resolution(&self, env_id: u64, sel: SectionSelector) -> Seq<
        (Seq<char>, Seq<(Seq<char>, Seq<char>, u64)>),
    > {
        selected_sections(self.sections, sel).map_values(
            |s: crate::store::Section| (s.name@, self.resolved_entries(env_id, s.id)),
        )
    }
}

pub proof fn lemma_dedup_into_contains(acc: Seq<Seq<char>>, s: Seq<Seq<char>>, k: Seq<char>)
    ensures
        dedup_into(acc, s).contains(k) <==> (acc.contains(k) || s.contains(k)),
    decreases s.len(),
{
    if s.len() > 0 {
        lemma_dedup_into_contains(acc, s.drop_last(), k);
        let a = dedup_into(acc, s.drop_last());
        if s.drop_last().contains(k) {
            let j = choose|j: int| 0 <= j < s.drop_last().len() && s.drop_last()[j] == k;
            assert(s[j] == k);
        }
        if s.contains(k) && s.last() != k {
            let j = choose|j: int| 0 <= j < s.len() && s[j] == k;
            assert(s.drop_last()[j] == k);
        }
        if !a.contains(s.last()) {
            assert(a.push(s.last()).last() == s.last());
            if a.contains(k) {
                let j = choose|j: int| 0 <= j < a.len() && a[j] == k;
                assert(a.push(s.last())[j] == k);
            }
            if a.push(s.last()).contains(k) && s.last() != k {
                let j = choose|j: int| 0 <= j < a.len() + 1 && a.push(s.last())[j] == k;
                assert(a[j] == k);
            }
        }
    }
}

pub proof fn lemma_default_keys_contains(ds: Seq<DefaultValue>, section_id: u64, k: Seq<char>)
    ensures
        default_keys(ds, section_id).contains(k) <==> last_where(ds, default_for(section_id, k)) is Some,
    decreases ds.len(),
{
    lemma_last_where(ds, default_for(section_id, k));
    if ds.len() > 0 {
        lemma_default_keys_contains(ds.drop_last(), section_id, k);
        lemma_last_where(ds.drop_last(), default_for(section_id, k));
        let prev = default_keys(ds.drop_last(), section_id);
        if ds.last().section_id == section_id {
            assert(prev.push(ds.last().key@).last() == ds.last().key@);
            if prev.contains(k) {
                let j = choose|j: int| 0 <= j < prev.len() && prev[j] == k;
                assert(prev.push(ds.last().key@)[j] == k);
            }
            if prev.push(ds.last().key@).contains(k) && ds.last().key@ != k {
                let j = choose|j: int| 0 <= j < prev.len() + 1 && prev.push(ds.last().key@)[j] == k;
                assert(prev[j] == k);
            }
        }
    }
}

impl StoreView {
    pub proof fn lemma_override_keys_contains(
        &self,
        ls: Seq<EnvConfigValue>,
        env_id: u64,
        section_id: u64,
        k: Seq<char>,
    )
        ensures
            self.override_keys(ls, env_id, section_id).contains(k) <==> last_where(
                ls,
                self.override_for(env_id, section_id, k),
            ) is Some,
        decreases ls.len(),
    {
        lemma_last_where(ls, self.override_for(env_id, section_id, k));
        if ls.len() > 0 {
            self.lemma_override_keys_contains(ls.drop_last(), env_id, section_id, k);
            lemma_last_where(ls.drop_last(), self.override_for(env_id, section_id, k));
            let prev = self.override_keys(ls.drop_last(), env_id, section_id);
            let nk = self.linked_value(ls.last()).key@;
            if ls.last().environment_id == env_id && self.linked_value(ls.last()).section_id
                == section_id {
                assert(prev.push(nk).last() == nk);
                if prev.contains(k) {
                    let j = choose|j: int| 0 <= j < prev.len() && prev[j] == k;
                    assert(prev.push(nk)[j] == k);
                }
                if prev.push(nk).contains(k) && nk != k {
                    let j = choose|j: int| 0 <= j < prev.len() + 1 && prev.push(nk)[j] == k;
                    assert(prev[j] == k);
                }
            }
        }
    }

    /// A key is listed for a section exactly when a default or an override of the
    /// environment gives it a value.
    pub proof fn lemma_section_keys_contains(&self, env_id: u64, section_id: u64, k: Seq<char>)
        ensures
            self.section_keys(env_id, section_id).contains(k) <==> (self.default_index(section_id, k) is Some
                || self.latest_override(env_id, section_id, k) is Some),
            self.section_keys(env_id, section_id).contains(k) <==> self.resolve_key(
                env_id,
                section_id,
                k,
            ) is Some,
    {
        let dk = default_keys(self.defaults, section_id);
        let ok = self.override_keys(self.env_config_values, env_id, section_id);
        lemma_dedup_into_contains(dedup_into(Seq::empty(), dk), ok, k);
        lemma_dedup_into_contains(Seq::empty(), dk, k);
        lemma_default_keys_contains(self.defaults, section_id, k);
        self.lemma_override_keys_contains(self.env_config_values, env_id, section_id, k);
    }
}

fn contains_key(keys: &Vec<String>, k: &String) -> (r: bool)
    ensures
        r == string_views(keys@).contains(k@),
{
    let mut i: usize = 0;
    while i < keys.len()
        invariant
            i <= keys@.len(),
            forall|j: int| 0 <= j < i ==> keys@[j]@ != k@,
        decreases keys@.len() - i,
    {
        if keys[i] == *k {
            assert(string_views(keys@)[i as int] == k@);
            return true;
        }
        i = i + 1;
    }
    assert forall|j: int| 0 <= j < string_views(keys@).len() implies string_views(keys@)[j] != k@ by {
        assert(keys@[j]@ != k@);
    }
    false
}

/// Appends `k` to `keys` unless it is already there.
fn push_new_key(keys: &mut Vec<String>, k: &String)
    ensures
        string_views(final(keys)@) == if string_views(old(keys)@).contains(k@) {
            string_views(old(keys)@)
        } else {
            string_views(old(keys)@).push(k@)
        },
{
    if !contains_key(keys, k) {
        keys.push(k.clone());
        assert(string_views(keys@) =~= string_views(old(keys)@).push(k@));
    }
}

impl ConfigStore {
    /// The config value that the link at position `li` points to.
    fn linked(&self, li: usize) -> (r: &ConfigValue)
        requires
            self@.wf(),
            li < self@.env_config_values.len(),
        ensures
            *r == self@.linked_value(self@.env_config_values[li as int]),
    {
        let l = &self.env_config_values[li];
        assert(1 <= self@.env_config_values[li as int].config_value_id);
        let count = self.config_values.len();
        assert(l.config_value_id <= count);
        &self.config_values[(l.config_value_id - 1) as usize]
    }

    fn find_latest_override(&self, env_id: u64, section_id: u64, key: &String) -> (r: Option<usize>)
        requires
            self@.wf(),
        ensures
            opt_index(r) == self@.latest_override(env_id, section_id, key@),
            r is Some ==> r->0 < self@.env_config_values.len(),
    {
        let ghost p = self@.override_for(env_id, section_id, key@);
        let mut found: Option<usize> = None;
        let mut i: usize = 0;
        while i < self.env_config_values.len()
            invariant
                self@.wf(),
                p == self@.override_for(env_id, section_id, key@),
                i <= self@.env_config_values.len(),
                opt_index(found) == last_where(self@.env_config_values.take(i as int), p),
                found is Some ==> found->0 < i,
            decreases self@.env_config_values.len() - i,
        {
            proof {
                lemma_last_where_step(self@.env_config_values, p, i as int);
            }
            let l = &self.env_config_values[i];
            if l.environment_id == env_id {
                let cv = self.linked(i);
                if cv.section_id == section_id && cv.key == *key {
                    found = Some(i);
                }
            }
            i = i + 1;
        }
        assert(self@.env_config_values.take(i as int) =~= self@.env_config_values);
        found
    }

    /// The value of `key` of the section `section_id` in the environment `env_id`, with its
    /// value type: the latest override of that environment, else the default, else `None`.
    pub fn resolve(&self, env_id: u64, section_id: u64, key: &str) -> (r: Option<(String, u64)>)
        requires
            self@.wf(),
        ensures
            match r {
                Some(v) => self@.resolve_key(env_id, section_id, key@) == Some((v.0@, v.1)),
                None => self@.resolve_key(env_id, section_id, key@) is None,
            },
    {
        let key_s = key.to_owned();
        match self.find_latest_override(env_id, section_id, &key_s) {
            Some(li) => {
                let cv = self.linked(li);
                Some((cv.value.clone(), cv.value_type_id))
            },
            None => match self.find_default(section_id, &key_s) {
                Some(d) => Some((self.defaults[d].value.clone(), self.defaults[d].value_type_id)),
                None => None,
            },
        }
    }

    fn collect_section_keys(&self, env_id: u64, section_id: u64) -> (r: Vec<String>)
        requires
            self@.wf(),
        ensures
            string_views(r@) == self@.section_keys(env_id, section_id),
    {
        let mut keys: Vec<String> = Vec::new();
        let mut i: usize = 0;
        while i < self.defaults.len()
            invariant
                i <= self@.defaults.len(),
                string_views(keys@) == dedup_into(
                    Seq::empty(),
                    default_keys(self@.defaults.take(i as int), section_id),
                ),
            decreases self@.defaults.len() - i,
        {
            assert(self@.defaults.take(i as int + 1).drop_last() =~= self@.defaults.take(i as int));
            if self.defaults[i].section_id == section_id {
                let ghost ks = default_keys(self@.defaults.take(i as int), section_id);
                assert(ks.push(self@.defaults[i as int].key@).drop_last() =~= ks);
                push_new_key(&mut keys, &self.defaults[i].key);
            }
            i = i + 1;
        }
        assert(self@.defaults.take(i as int) =~= self@.defaults);
        let ghost base = string_views(keys@);
        let mut j: usize = 0;
        while j < self.env_config_values.len()
            invariant
                self@.wf(),
                j <= self@.env_config_values.len(),
                base == dedup_into(Seq::empty(), default_keys(self@.defaults, section_id)),
                string_views(keys@) == dedup_into(
                    base,
                    self@.override_keys(self@.env_config_values.take(j as int), env_id, section_id),
                ),
            decreases self@.env_config_values.len() - j,
        {
            assert(self@.env_config_values.take(j as int + 1).drop_last()
                =~= self@.env_config_values.take(j as int));
            let l = &self.env_config_values[j];
            if l.environment_id == env_id {
                let cv = self.linked(j);
                if cv.section_id == section_id {
                    let ghost ks = self@.override_keys(
                        self@.env_config_values.take(j as int),
                        env_id,
                        section_id,
                    );
                    assert(ks.push(cv.key@).drop_last() =~= ks);
                    push_new_key(&mut keys, &cv.key);
                }
            }
            j = j + 1;
        }
        assert(self@.env_config_values.take(j as int) =~= self@.env_config_values);
        keys
    }

    /// The resolved entries of the section `section_id` in the environment `env_id`.
    pub fn resolve_section(&self, env_id: u64, section_id: u64) -> (r: Vec<ResolvedEntry>)
        requires
            self@.wf(),
        ensures
            r@.map_values(|e: ResolvedEntry| entry_model(e)) == self@.resolved_entries(
                env_id,
                section_id,
            ),
    {
        let keys = self.collect_section_keys(env_id, section_id);
        let ghost sk = self@.section_keys(env_id, section_id);
        let mut out: Vec<ResolvedEntry> = Vec::new();
        let mut i: usize = 0;
        while i < keys.len()
            invariant
                self@.wf(),
                sk == self@.section_keys(env_id, section_id),
                string_views(keys@) == sk,
                i <= keys@.len(),
                out@.len() == i,
                forall|j: int|
                    0 <= j < i ==> #[trigger] entry_model(out@[j]) == self@.resolved_entries(
                        env_id,
                        section_id,
                    )[j],
            decreases keys@.len() - i,
        {
            let k = &keys[i];
            assert(sk[i as int] == k@);
            proof {
                self@.lemma_section_keys_contains(env_id, section_id, k@);
                assert(sk.contains(k@));
            }
            match self.resolve(env_id, section_id, k.as_str()) {
                Some(v) => {
                    out.push(ResolvedEntry { key: k.clone(), value: v.0, value_type_id: v.1 });
                },
                None => {},
            }
            i = i + 1;
        }
        assert(out@.map_values(|e: ResolvedEntry| entry_model(e)) =~= self@.resolved_entries(
            env_id,
            section_id,
        ));
        out
    }

    /// The resolved configuration of the environment named `environment`, restricted to
    /// the sections that `selector` picks, in the order of the section table. Fails when
    /// there is no such environment.
    pub fn resolve_values(&self, environment: &str, selector: &SectionSelector) -> (r: Result<
        Vec<ResolvedSection>,
        StoreError,
    >)
        requires
            self@.wf(),
        ensures
            match self@.env_index(environment@) {
                None => r == Err::<Vec<ResolvedSection>, StoreError>(StoreError::EnvironmentNotFound),
                Some(i) => r is Ok && document_model(r->Ok_0@) == self@.resolution(
                    self@.environments[i].id,
                    *selector,
                ),
            },
    {
        let env_id = match self.get_env_id(environment) {
            Some(id) => id,
            None => {
                return Err(StoreError::EnvironmentNotFound);
            },
        };
        let ghost f = |s: crate::store::Section| (s.name@, self@.resolved_entries(env_id, s.id));
        let mut out: Vec<ResolvedSection> = Vec::new();
        let mut i: usize = 0;
        while i < self.sections.len()
            invariant
                self@.wf(),
                i <= self@.sections.len(),
                f == (|s: crate::store::Section| (s.name@, self@.resolved_entries(env_id, s.id))),
                document_model(out@) == selected_sections(
                    self@.sections.take(i as int),
                    *selector,
                ).map_values(f),
            decreases self@.sections.len() - i,
        {
            assert(self@.sections.take(i as int + 1).drop_last() =~= self@.sections.take(i as int));
            let ghost prev = selected_sections(self@.sections.take(i as int), *selector);
            if self.selected(selector, &self.sections[i].name) {
                let entries = self.resolve_section(env_id, self.sections[i].id);
                out.push(ResolvedSection { name: self.sections[i].name.clone(), entries });
                assert(prev.push(self@.sections[i as int]).map_values(f) =~= prev.map_values(f).push(
                    f(self@.sections[i as int]),
                ));
                assert(document_model(out@) =~= document_model(out@).drop_last().push(
                    section_model(out@.last()),
                ));
            }
            i = i + 1;
        }
        assert(self@.sections.take(i as int) =~= self@.sections);
        Ok(out)
    }

    fn selected(&self, selector: &SectionSelector, name: &String) -> (r: bool)
        ensures
            r == selects(*selector, name@),
    {
        match selector {
            SectionSelector::All => true,
            SectionSelector::Named(names) => contains_key(names, name),
        }
    }
}

} // verus!
