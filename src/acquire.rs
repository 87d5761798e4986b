use vstd::prelude::*;
use crate::laws::lemma_new_override_resolves;
use crate::search::lemma_last_where;
use crate::store::{ConfigStore, StoreError, StoreView, env_named};

verus! {

/// A key that a deployment needs a value for.
pub struct RequiredKey {
    pub section: String,
    pub key: String,
}

pub open spec fn required_model(r: RequiredKey) -> (Seq<char>, Seq<char>) {
    (r.section@, r.key@)
}

impl StoreView {
    /// The key has neither an override in the environment nor a default.
    pub open spec fn is_missing(&self, env_id: u64, section: Seq<char>, key: Seq<char>) -> bool {
        self.resolve_key(env_id, self.sections[self.section_index(section)->0].id, key) is None
    }

    /// The required keys, in order, that the environment has no value for.
    pub open spec fn missing_of(&self, env_id: u64, reqs: Seq<(Seq<char>, Seq<char>)>) -> Seq<
        (Seq<char>, Seq<char>),
    >
        decreases reqs.len(),
    {
        if reqs.len() == 0 {
            Seq::empty()
        } else if self.is_missing(env_id, reqs.last().0, reqs.last().1) {
            self.missing_of(env_id, reqs.drop_last()).push(reqs.last())
        } else {
            self.missing_of(env_id, reqs.drop_last())
        }
    }

    /// Some required key names a section that does not exist.
    pub open spec fn unknown_section_in(&self, reqs: Seq<(Seq<char>, Seq<char>)>) -> bool {
        exists|i: int| 0 <= i < reqs.len() && self.section_index(#[trigger] reqs[i].0) is None
    }
}

impl ConfigStore {
    /// The keys among `required` that have no value in the environment named `environment`:
    /// no override of that environment and no default. These must be acquired before the
    /// environment's configuration is complete. Fails when the environment, or the section
    /// of a required key, does not exist.
    pub fn missing_values(&self, environment: &str, required: &Vec<RequiredKey>) -> (r: Result<
        Vec<RequiredKey>,
        StoreError,
    >)
        requires
            self@.wf(),
        ensures
            ({
                let reqs = required@.map_values(|q: RequiredKey| required_model(q));
                match self@.env_index(environment@) {
                    None => r == Err::<Vec<RequiredKey>, StoreError>(
                        StoreError::EnvironmentNotFound,
                    ),
                    Some(e) => if self@.unknown_section_in(reqs) {
                        r == Err::<Vec<RequiredKey>, StoreError>(StoreError::SectionNotFound)
                    } else {
                        r is Ok && r->Ok_0@.map_values(|q: RequiredKey| required_model(q))
                            == self@.missing_of(self@.environments[e].id, reqs)
                    },
                }
            }),
    {
        let env_id = match self.get_env_id(environment) {
            Some(id) => id,
            None => {
                return Err(StoreError::EnvironmentNotFound);
            },
        };
        let ghost reqs = required@.map_values(|q: RequiredKey| required_model(q));
        let mut out: Vec<RequiredKey> = Vec::new();
        let mut i: usize = 0;
        while i < required.len()
            invariant
                self@.wf(),
                self@.env_index(environment@) is Some,
                env_id == self@.environments[self@.env_index(environment@)->0].id,
                reqs == required@.map_values(|q: RequiredKey| required_model(q)),
                i <= required@.len(),
                forall|j: int| 0 <= j < i ==> self@.section_index(#[trigger] reqs[j].0) is Some,
                out@.map_values(|q: RequiredKey| required_model(q)) == self@.missing_of(
                    env_id,
                    reqs.take(i as int),
                ),
            decreases required@.len() - i,
        {
            assert(reqs.take(i as int + 1).drop_last() =~= reqs.take(i as int));
            let q = &required[i];
            assert(reqs[i as int] == required_model(*q));
            let si = match self.find_section(&q.section) {
                Some(si) => si,
                None => {
                    assert(self@.section_index(reqs[i as int].0) is None);
                    return Err(StoreError::SectionNotFound);
                },
            };
            if self.resolve(env_id, self.sections[si].id, q.key.as_str()).is_none() {
                let ghost prev = out@;
                out.push(RequiredKey { section: q.section.clone(), key: q.key.clone() });
                assert(out@.map_values(|q: RequiredKey| required_model(q)) =~= prev.map_values(
                    |q: RequiredKey| required_model(q),
                ).push(required_model(out@.last())));
            }
            i = i + 1;
        }
        assert(reqs.take(i as int) =~= reqs);
        Ok(out)
    }

    /// Records an acquired value: appends it as a config value of `key` of `section` and
    /// links it to the environment named `environment`, which then resolves the key to it.
    /// Fails, changing nothing, when the environment, the section or the value type does
    /// not exist, or when the value does not conform to its type.
    pub fn record_answer(
        &mut self,
        environment: &str,
        section: &str,
        key: &str,
        value: &str,
        value_type: &str,
    ) -> (r: Result<u64, StoreError>)
        requires
            old(self)@.wf(),
            old(self)@.room(),
        ensures
            final(self)@.wf(),
            match old(self)@.env_index(environment@) {
                None => {
                    &&& r == Err::<u64, StoreError>(StoreError::EnvironmentNotFound)
                    &&& final(self)@ == old(self)@
                },
                Some(e) => match old(self)@.value_error(section@, value@, value_type@) {
                    Some(err) => r == Err::<u64, StoreError>(err) && final(self)@ == old(self)@,
                    None => {
                        let s = old(self)@;
                        &&& r is Ok
                        &&& final(self)@.resolve_key(
                            s.environments[e].id,
                            s.sections[s.section_index(section@)->0].id,
                            key@,
                        ) == Some((value@, s.value_types[s.type_index(value_type@)->0].id))
                        &&& forall|other: u64, sid: u64, k: Seq<char>|
                            other != s.environments[e].id ==> #[trigger] final(self)@.resolve_key(
                                other,
                                sid,
                                k,
                            ) == s.resolve_key(other, sid, k)
                    },
                },
            },
    {
        let env_id = match self.get_env_id(environment) {
            Some(id) => id,
            None => {
                return Err(StoreError::EnvironmentNotFound);
            },
        };
        let ghost s0 = self@;
        let cfg_id = match self.set_config_value(section, key, value, value_type) {
            Ok(id) => id,
            Err(e) => {
                return Err(e);
            },
        };
        let ghost s1 = self@;
        proof {
            lemma_last_where(s0.environments, env_named(environment@));
        }
        let r = self.add_env_cfg_value(env_id, cfg_id);
        proof {
            assert(r is Ok);
            let link_id = r->Ok_0;
            assert forall|other: u64, sid: u64, k: Seq<char>|
                other != env_id implies #[trigger] self@.resolve_key(other, sid, k)
                == s0.resolve_key(other, sid, k) by {
                lemma_new_override_resolves(
                    s0, s1, self@, section@, key@, value@, value_type@, env_id, cfg_id, link_id,
                    other, sid, k,
                );
            }
            let other: u64 = if env_id == 0 {
                1
            } else {
                0
            };
            lemma_new_override_resolves(
                s0, s1, self@, section@, key@, value@, value_type@, env_id, cfg_id, link_id,
                other, 0, key@,
            );
        }
        r
    }
}

} // verus!
