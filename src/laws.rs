use vstd::prelude::*;
use crate::catalog::{
    add_env_cfg_value_post, delete_section_post, set_config_value_post, upsert_environment_post,
};
use crate::merge::{SectionSelector, selected_sections, selects};
use crate::search::{last_where, lemma_last_where};
use crate::store::{Section, StoreError, StoreView, env_named};

verus! {

/// Upserting an environment twice under one name gives the same identity both times, and
/// the second call changes nothing, whatever namespace it passes.
pub proof fn law_upsert_environment_idempotent(
    s0: StoreView,
    s1: StoreView,
    s2: StoreView,
    name: Seq<char>,
    ns1: Seq<char>,
    ns2: Seq<char>,
    r1: u64,
    r2: u64,
)
    requires
        s0.wf(),
        upsert_environment_post(s0, name, ns1, s1, r1),
        upsert_environment_post(s1, name, ns2, s2, r2),
    ensures
        r2 == r1,
        s2 == s1,
{
    if s0.env_index(name) is None {
        assert(env_named(name)(s1.environments.last()));
        assert(s1.env_index(name) == Some(s1.environments.len() - 1));
    }
}

/// Deleting a section that does not exist affects no rows, is no error, and changes nothing.
pub proof fn law_delete_missing_section(
    s0: StoreView,
    s1: StoreView,
    name: Seq<char>,
    r: Result<u64, StoreError>,
)
    requires
        s0.section_index(name) is None,
        delete_section_post(s0, name, s1, r),
    ensures
        r == Ok::<u64, StoreError>(0),
        s1 == s0,
{
}

/// A value recorded with `set_config_value` and linked to an environment with
/// `add_env_cfg_value` is what that environment resolves the key to, whatever came before;
/// every other environment resolves every key as before.
pub proof fn lemma_new_override_resolves(
    s0: StoreView,
    s1: StoreView,
    s2: StoreView,
    section: Seq<char>,
    key: Seq<char>,
    value: Seq<char>,
    value_type: Seq<char>,
    env_id: u64,
    cfg_id: u64,
    link_id: u64,
    other_env: u64,
    other_section: u64,
    other_key: Seq<char>,
)
    requires
        s0.wf(),
        set_config_value_post(s0, section, key, value, value_type, s1, Ok(cfg_id)),
        add_env_cfg_value_post(s1, env_id, cfg_id, s2, Ok(link_id)),
        other_env != env_id,
    ensures
        s2.resolve_key(env_id, s0.sections[s0.section_index(section)->0].id, key) == Some(
            (value, s0.value_types[s0.type_index(value_type)->0].id),
        ),
        s2.resolve_key(other_env, other_section, other_key) == s0.resolve_key(
            other_env,
            other_section,
            other_key,
        ),
        s2.sections == s0.sections,
{
    let sid = s0.sections[s0.section_index(section)->0].id;
    let n = s2.env_config_values.len();
    assert(s2.env_config_values.last() == s2.env_config_values[n - 1]);
    assert(s2.linked_value(s2.env_config_values.last()) == s1.config_values.last());
    assert(s2.override_for(env_id, sid, key)(s2.env_config_values.last()));
    assert(s2.latest_override(env_id, sid, key) == Some(n - 1));
    let p0 = s0.override_for(other_env, other_section, other_key);
    let p2 = s2.override_for(other_env, other_section, other_key);
    assert(s2.env_config_values.drop_last() =~= s0.env_config_values);
    assert forall|j: int| 0 <= j < s0.env_config_values.len() implies p2(
        s2.env_config_values[j],
    ) == p0(#[trigger] s0.env_config_values[j]) by {
        let l = s0.env_config_values[j];
        assert(s2.env_config_values[j] == l);
        assert(1 <= l.config_value_id <= s0.config_values.len());
        assert(s2.config_values[l.config_value_id - 1] == s0.config_values[l.config_value_id - 1]);
    }
    assert(!p2(s2.env_config_values.last()));
    assert(last_where(s2.env_config_values, p2) == last_where(s0.env_config_values, p2));
    lemma_last_where(s0.env_config_values, p0);
    lemma_last_where(s0.env_config_values, p2);
    match last_where(s0.env_config_values, p0) {
        Some(i) => {
            if last_where(s0.env_config_values, p2) != Some(i) {
                match last_where(s0.env_config_values, p2) {
                    Some(k) => {
                        assert(p0(s0.env_config_values[k]));
                    },
                    None => {
                        assert(p2(s0.env_config_values[i]));
                    },
                }
            }
            let l = s0.env_config_values[i];
            assert(s2.config_values[l.config_value_id - 1] == s0.config_values[l.config_value_id
                - 1]);
        },
        None => {
            if let Some(k) = last_where(s0.env_config_values, p2) {
                assert(p0(s0.env_config_values[k]));
            }
        },
    }
}

/// An environment's override shadows the default of its key, while an environment without
/// an override of that key still resolves it to the default.
pub proof fn law_override_precedence(
    s0: StoreView,
    s1: StoreView,
    s2: StoreView,
    section: Seq<char>,
    key: Seq<char>,
    value: Seq<char>,
    value_type: Seq<char>,
    env_id: u64,
    cfg_id: u64,
    link_id: u64,
    other_env: u64,
)
    requires
        s0.wf(),
        set_config_value_post(s0, section, key, value, value_type, s1, Ok(cfg_id)),
        add_env_cfg_value_post(s1, env_id, cfg_id, s2, Ok(link_id)),
        other_env != env_id,
        s0.latest_override(other_env, s0.sections[s0.section_index(section)->0].id, key) is None,
    ensures
        ({
            let sid = s0.sections[s0.section_index(section)->0].id;
            &&& s2.resolve_key(env_id, sid, key) == Some(
                (value, s0.value_types[s0.type_index(value_type)->0].id),
            )
            &&& s2.resolve_key(other_env, sid, key) == match s0.default_index(sid, key) {
                Some(d) => Some((s0.defaults[d].value@, s0.defaults[d].value_type_id)),
                None => None,
            }
        }),
{
    let sid = s0.sections[s0.section_index(section)->0].id;
    lemma_new_override_resolves(
        s0,
        s1,
        s2,
        section,
        key,
        value,
        value_type,
        env_id,
        cfg_id,
        link_id,
        other_env,
        sid,
        key,
    );
}

/// Of two values recorded in sequence for one key of one section in one environment, the
/// second is what the environment resolves the key to.
pub proof fn law_last_write_wins(
    s0: StoreView,
    s1: StoreView,
    s2: StoreView,
    s3: StoreView,
    s4: StoreView,
    section: Seq<char>,
    key: Seq<char>,
    first: Seq<char>,
    second: Seq<char>,
    value_type: Seq<char>,
    env_id: u64,
    cfg1: u64,
    link1: u64,
    cfg2: u64,
    link2: u64,
)
    requires
        s0.wf(),
        set_config_value_post(s0, section, key, first, value_type, s1, Ok(cfg1)),
        add_env_cfg_value_post(s1, env_id, cfg1, s2, Ok(link1)),
        s2.wf(),
        set_config_value_post(s2, section, key, second, value_type, s3, Ok(cfg2)),
        add_env_cfg_value_post(s3, env_id, cfg2, s4, Ok(link2)),
    ensures
        s4.resolve_key(env_id, s0.sections[s0.section_index(section)->0].id, key) == Some(
            (second, s0.value_types[s0.type_index(value_type)->0].id),
        ),
{
    lemma_new_override_resolves(
        s2, s3, s4, section, key, second, value_type, env_id, cfg2, link2,
        if env_id == 0 {
            1
        } else {
            0
        }, 0, key,
    );
}

/// A key that an environment overrides is among the resolved entries of its section, with
/// the override's value, even when the key has no default.
pub proof fn law_override_key_included(s: StoreView, env_id: u64, section_id: u64, key: Seq<char>)
    requires
        s.wf(),
        s.latest_override(env_id, section_id, key) is Some,
    ensures
        ({
            let cv = s.linked_value(s.env_config_values[s.latest_override(env_id, section_id, key)->0]);
            exists|j: int|
                0 <= j < s.resolved_entries(env_id, section_id).len() && #[trigger] s.resolved_entries(
                    env_id,
                    section_id,
                )[j] == (key, cv.value@, cv.value_type_id)
        }),
{
    s.lemma_section_keys_contains(env_id, section_id, key);
    let ks = s.section_keys(env_id, section_id);
    let j = choose|j: int| 0 <= j < ks.len() && ks[j] == key;
    assert(s.resolved_entries(env_id, section_id)[j].0 == key);
}

proof fn lemma_same_selection(secs: Seq<Section>, a: SectionSelector, b: SectionSelector)
    requires
        forall|n: Seq<char>| selects(a, n) == selects(b, n),
    ensures
        selected_sections(secs, a) == selected_sections(secs, b),
    decreases secs.len(),
{
    if secs.len() > 0 {
        lemma_same_selection(secs.drop_last(), a, b);
    }
}

/// Rendering is deterministic: stores with equal contents and selectors that pick the same
/// sections give identical text, or the same error.
pub proof fn law_render_deterministic(
    s1: StoreView,
    s2: StoreView,
    environment: Seq<char>,
    a: SectionSelector,
    b: SectionSelector,
)
    requires
        s1 == s2,
        forall|n: Seq<char>| selects(a, n) == selects(b, n),
    ensures
        s1.rendered_values(environment, a) == s2.rendered_values(environment, b),
{
    lemma_same_selection(s1.sections, a, b);
}

} // verus!
