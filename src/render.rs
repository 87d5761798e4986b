use vstd::prelude::*;
use crate::merge::{
    ResolvedEntry, ResolvedSection, SectionSelector, document_model, entry_model, section_model,
};
use crate::store::{ConfigStore, DefaultValue, Section, StoreError, StoreView};

verus! {

/// The lines of a section's entries: two spaces, the key, a colon and a space, the value.
pub open spec fn render_entries(es: Seq<(Seq<char>, Seq<char>, u64)>) -> Seq<char>
    decreases es.len(),
{
    if es.len() == 0 {
        Seq::empty()
    } else {
        render_entries(es.drop_last()) + "  "@ + es.last().0 + ": "@ + es.last().1 + "\n"@
    }
}

/// A document nested by section: for each section a line with its name and a colon,
/// followed by the lines of its entries.
pub open spec fn render_text(ss: Seq<(Seq<char>, Seq<(Seq<char>, Seq<char>, u64)>)>) -> Seq<char>
    decreases ss.len(),
{
    if ss.len() == 0 {
        Seq::empty()
    } else {
        render_text(ss.drop_last()) + ss.last().0 + ":\n"@ + render_entries(ss.last().1)
    }
}

/// The defaults of the section `section_id` as entries, in the order of the defaults.
pub open spec fn default_entries(ds: Seq<DefaultValue>, section_id: u64) -> Seq<
    (Seq<char>, Seq<char>, u64),
>
    decreases ds.len(),
{
    if ds.len() == 0 {
        Seq::empty()
    } else if ds.last().section_id == section_id {
        default_entries(ds.drop_last(), section_id).push(
            (ds.last().key@, ds.last().value@, ds.last().value_type_id),
        )
    } else {
        default_entries(ds.drop_last(), section_id)
    }
}

impl StoreView {
    /// All defaults, grouped by section in the order of the section table.
    pub open spec fn defaults_document(&self) -> Seq<
        (Seq<char>, Seq<(Seq<char>, Seq<char>, u64)>),
    > {
        self.sections.map_values(|s: Section| (s.name@, default_entries(self.defaults, s.id)))
    }

    /// The text of the environment's resolved configuration for the selected sections, or
    /// `EnvironmentNotFound` when no environment has that name.
    pub open spec fn rendered_values(&self, environment: Seq<char>, sel: SectionSelector) -> Result<
        Seq<char>,
        StoreError,
    > {
        match self.env_index(environment) {
            None => Err(StoreError::EnvironmentNotFound),
            Some(i) => Ok(render_text(self.resolution(self.environments[i].id, sel))),
        }
    }
}

/// Serializes a resolved document, section by section.
pub fn render_document(doc: &Vec<ResolvedSection>) -> (r: String)
    ensures
        r@ == render_text(document_model(doc@)),
{
    let mut out = String::new();
    let mut i: usize = 0;
    while i < doc.len()
        invariant
            i <= doc@.len(),
            out@ == render_text(document_model(doc@.take(i as int))),
        decreases doc@.len() - i,
    {
        let sec = &doc[i];
        let ghost before = out@;
        out.append(sec.name.as_str());
        out.append(":\n");
        let mut j: usize = 0;
        while j < sec.entries.len()
            invariant
                j <= sec.entries@.len(),
                out@ == before + sec.name@ + ":\n"@ + render_entries(
                    sec.entries@.take(j as int).map_values(|e: ResolvedEntry| entry_model(e)),
                ),
            decreases sec.entries@.len() - j,
        {
            let e = &sec.entries[j];
            let ghost es = sec.entries@.take(j as int + 1).map_values(
                |e: ResolvedEntry| entry_model(e),
            );
            assert(es.drop_last() =~= sec.entries@.take(j as int).map_values(
                |e: ResolvedEntry| entry_model(e),
            ));
            assert(es.last() == entry_model(*e));
            out.append("  ");
            out.append(e.key.as_str());
            out.append(": ");
            out.append(e.value.as_str());
            out.append("\n");
            assert(out@ =~= before + sec.name@ + ":\n"@ + render_entries(es));
            j = j + 1;
        }
        assert(sec.entries@.take(j as int) =~= sec.entries@);
        let ghost dm = document_model(doc@.take(i as int + 1));
        assert(dm.drop_last() =~= document_model(doc@.take(i as int)));
        assert(dm.last() == section_model(*sec));
        assert(out@ =~= render_text(dm));
        i = i + 1;
    }
    assert(doc@.take(i as int) =~= doc@);
    out
}

impl ConfigStore {
    /// The defaults of the section `section_id`, in the order of the defaults.
    fn default_section_entries(&self, section_id: u64) -> (r: Vec<ResolvedEntry>)
        ensures
            r@.map_values(|e: ResolvedEntry| entry_model(e)) == default_entries(
                self@.defaults,
                section_id,
            ),
    {
        let mut out: Vec<ResolvedEntry> = Vec::new();
        let mut i: usize = 0;
        while i < self.defaults.len()
            invariant
                i <= self@.defaults.len(),
                out@.map_values(|e: ResolvedEntry| entry_model(e)) == default_entries(
                    self@.defaults.take(i as int),
                    section_id,
                ),
            decreases self@.defaults.len() - i,
        {
            assert(self@.defaults.take(i as int + 1).drop_last() =~= self@.defaults.take(i as int));
            let d = &self.defaults[i];
            if d.section_id == section_id {
                let ghost prev = out@;
                out.push(
                    ResolvedEntry {
                        key: d.key.clone(),
                        value: d.value.clone(),
                        value_type_id: d.value_type_id,
                    },
                );
                assert(out@.map_values(|e: ResolvedEntry| entry_model(e)) =~= prev.map_values(
                    |e: ResolvedEntry| entry_model(e),
                ).push(entry_model(out@.last())));
            }
            i = i + 1;
        }
        assert(self@.defaults.take(i as int) =~= self@.defaults);
        out
    }

    /// All defaults, grouped by section, independent of any environment.
    pub fn default_sections(&self) -> (r: Vec<ResolvedSection>)
        ensures
            document_model(r@) == self@.defaults_document(),
    {
        let mut out: Vec<ResolvedSection> = Vec::new();
        let mut i: usize = 0;
        while i < self.sections.len()
            invariant
                i <= self@.sections.len(),
                out@.len() == i,
                forall|j: int|
                    0 <= j < i ==> #[trigger] section_model(out@[j])
                        == self@.defaults_document()[j],
            decreases self@.sections.len() - i,
        {
            let entries = self.default_section_entries(self.sections[i].id);
            out.push(ResolvedSection { name: self.sections[i].name.clone(), entries });
            i = i + 1;
        }
        assert(document_model(out@) =~= self@.defaults_document());
        out
    }

    /// Serializes all defaults, grouped by section.
    pub fn render_defaults(&self) -> (r: String)
        ensures
            r@ == render_text(self@.defaults_document()),
    {
        let doc = self.default_sections();
        render_document(&doc)
    }

    /// Serializes the resolved configuration of the environment named `environment` for
    /// the sections that `selector` picks. Fails when there is no such environment.
    pub fn render_values(&self, environment: &str, selector: &SectionSelector) -> (r: Result<
        String,
        StoreError,
    >)
        requires
            self@.wf(),
        ensures
            match r {
                Ok(text) => self@.rendered_values(environment@, *selector) == Ok::<
                    Seq<char>,
                    StoreError,
                >(text@),
                Err(e) => self@.rendered_values(environment@, *selector) == Err::<
                    Seq<char>,
                    StoreError,
                >(e),
            },
    {
        match self.resolve_values(environment, selector) {
            Ok(doc) => Ok(render_document(&doc)),
            Err(e) => Err(e),
        }
    }
}

} // verus!
