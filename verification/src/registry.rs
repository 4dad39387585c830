//! The live source table and its reference-count discipline.
//!
//! A [`Source`] is a named, independently addressable pipeline node, not
//! owned by the session.  The [`Registry`] looks sources up by name,
//! enumerates them, and carries the runtime mutations the control surface
//! performs while the broadcast runs: redirecting a stream target and
//! changing volume.  Every acquisition through [`Registry::by_name`] is
//! paired with exactly one [`Registry::release`], on every path; the
//! mutating operations acquire, act and release within one call and leave
//! every reference count as they found it.
//!
//! Updates replace whole values: a stream-target change swaps the entire
//! playlist value in one step, and two writers to the same source converge
//! on one of the submitted values, never an intermediate mixture.

use vstd::prelude::*;
use vstd::string::StringExecFns;

use crate::errors::{Error, LookupKind};
use crate::settings::{
    check_nul_free, nul_free, pairs_to_map, str_eq, upsert, wf_obj, Array, Data, ValModel,
};

verus! {

/// The model of one live source.
pub struct SourceModel {
    pub name: Seq<char>,
    pub has_video: bool,
    pub has_audio: bool,
    pub is_composite: bool,
    /// Volume in thousandths of unit gain.
    pub volume_mil: int,
    /// The source's settings, as an ordered entry sequence.
    pub settings: Seq<(Seq<char>, ValModel)>,
    /// Outstanding acquisitions beyond the registry's own reference.
    pub refs: int,
}

/// A named, live pipeline node.
pub struct Source {
    name: String,
    has_video: bool,
    has_audio: bool,
    is_composite: bool,
    volume_mil: i64,
    settings: Data,
    refs: u64,
}

impl Source {
    /// The model of this source.
    pub closed spec fn model(self) -> SourceModel {
        SourceModel {
            name: self.name@,
            has_video: self.has_video,
            has_audio: self.has_audio,
            is_composite: self.is_composite,
            volume_mil: self.volume_mil as int,
            settings: self.settings.obj_model(),
            refs: self.refs as int,
        }
    }

    /// The source's name.
    pub fn get_name(&self) -> (r: &String)
        ensures
            r@ == self.model().name,
    {
        &self.name
    }

    /// Does the source produce video?
    pub fn has_video(&self) -> (r: bool)
        ensures
            r == self.model().has_video,
    {
        self.has_video
    }

    /// Does the source produce audio?
    pub fn has_audio(&self) -> (r: bool)
        ensures
            r == self.model().has_audio,
    {
        self.has_audio
    }

    /// Does the source composite other sources?
    pub fn is_composite(&self) -> (r: bool)
        ensures
            r == self.model().is_composite,
    {
        self.is_composite
    }

    /// The source's volume, in thousandths of unit gain.
    pub fn get_volume(&self) -> (r: i64)
        ensures
            r == self.model().volume_mil,
    {
        self.volume_mil
    }
}

/// One row of a status snapshot.
#[derive(Clone, Debug, PartialEq)]
pub struct SourceStatus {
    pub name: String,
    pub has_video: bool,
    pub has_audio: bool,
    pub is_composite: bool,
    /// Volume in thousandths of unit gain; the wire carries a binary32
    /// that the transport edge converts.
    pub volume_mil: i64,
}

/// The models of a sequence of sources, in registry order.
pub closed spec fn sources_model(s: Seq<Source>) -> Seq<SourceModel>
    decreases s,
{
    if s.len() == 0 {
        Seq::empty()
    } else {
        sources_model(s.drop_last()).push(s.last().model())
    }
}

/// What `sources_model` holds at each position.
pub proof fn lemma_sources_model(s: Seq<Source>)
    ensures
        sources_model(s).len() == s.len(),
        forall|i: int| 0 <= i < s.len() ==> sources_model(s)[i] == s[i].model(),
    decreases s.len(),
{
    if s.len() > 0 {
        lemma_sources_model(s.drop_last());
    }
}

/// Is some source named `name`?
pub open spec fn reg_has(m: Seq<SourceModel>, name: Seq<char>) -> bool {
    exists|i: int| 0 <= i < m.len() && m[i].name == name
}

/// The position of the source named `name` (unique when names are unique).
pub open spec fn reg_index(m: Seq<SourceModel>, name: Seq<char>) -> int {
    choose|i: int| 0 <= i < m.len() && m[i].name == name
}

/// The single playlist item a stream-target change submits: one visible,
/// unselected entry holding the new target.
pub open spec fn playlist_entries(url: Seq<char>) -> Seq<(Seq<char>, ValModel)> {
    seq![
        ("hidden"@, ValModel::B(false)),
        ("selected"@, ValModel::B(false)),
        ("value"@, ValModel::S(url)),
    ]
}

/// What a stream-target change does to the table: the named source's
/// whole playlist value is replaced in one step, every other source and
/// every reference count is untouched; an unknown name changes nothing.
pub open spec fn spec_set_stream(m: Seq<SourceModel>, name: Seq<char>, url: Seq<char>) -> Seq<
    SourceModel,
> {
    if reg_has(m, name) {
        let i = reg_index(m, name);
        m.update(
            i,
            SourceModel {
                settings: upsert(
                    m[i].settings,
                    "playlist"@,
                    ValModel::A(seq![playlist_entries(url)]),
                ),
                ..m[i]
            },
        )
    } else {
        m
    }
}

/// What a volume change does to the table: the named source's volume is
/// replaced, everything else is untouched; an unknown name changes
/// nothing.
pub open spec fn spec_set_volume(m: Seq<SourceModel>, name: Seq<char>, v: int) -> Seq<
    SourceModel,
> {
    if reg_has(m, name) {
        let i = reg_index(m, name);
        m.update(i, SourceModel { volume_mil: v, ..m[i] })
    } else {
        m
    }
}

/// What registering a source does to the table: a record named like an
/// existing one replaces it wholesale, a new name is appended.
pub open spec fn spec_register(m: Seq<SourceModel>, sm: SourceModel) -> Seq<SourceModel> {
    if reg_has(m, sm.name) {
        m.update(reg_index(m, sm.name), sm)
    } else {
        m.push(sm)
    }
}

/// A handle returned by an acquisition; surrendering it through
/// [`Registry::release`] is the matching release.
pub struct SourceHandle {
    index: usize,
}

impl SourceHandle {
    /// The registry position of the acquired source.
    pub closed spec fn index(self) -> int {
        self.index as int
    }

    /// Read the registry position.
    pub fn position(&self) -> (r: usize)
        ensures
            r == self.index(),
    {
        self.index
    }
}

/// The table of live sources.
pub struct Registry {
    sources: Vec<Source>,
}

impl Registry {
    /// The table's model, in registry order.
    pub closed spec fn model(self) -> Seq<SourceModel> {
        sources_model(self.sources@)
    }

    /// Names unique and NUL-free, every source's settings well formed.
    pub open spec fn wf(self) -> bool {
        &&& forall|i: int, j: int|
            0 <= i < j < self.model().len() ==> self.model()[i].name != self.model()[j].name
        &&& forall|i: int|
            0 <= i < self.model().len() ==> nul_free((#[trigger] self.model()[i]).name)
        &&& forall|i: int|
            0 <= i < self.model().len() ==> wf_obj((#[trigger] self.model()[i]).settings)
    }

    /// An empty table.
    pub fn new() -> (r: Registry)
        ensures
            r.model() == Seq::<SourceModel>::empty(),
            r.wf(),
    {
        let r = Registry { sources: Vec::new() };
        proof {
            assert(r.model() =~= Seq::<SourceModel>::empty());
        }
        r
    }

    /// How many sources are live.
    pub fn count(&self) -> (r: usize)
        ensures
            r == self.model().len(),
    {
        proof {
            lemma_sources_model(self.sources@);
        }
        self.sources.len()
    }

    /// Position of the source named `name`, if any.
    fn find(&self, name: &str) -> (r: Option<usize>)
        ensures
            match r {
                Some(i) => i < self.model().len() && self.model()[i as int].name == name@,
                None => !reg_has(self.model(), name@),
            },
    {
        proof {
            lemma_sources_model(self.sources@);
        }
        let n = self.sources.len();
        let mut i: usize = 0;
        while i < n
            invariant
                n == self.sources@.len(),
                i <= n,
                self.model().len() == n,
                forall|j: int| 0 <= j < n ==> self.model()[j] == self.sources@[j].model(),
                forall|j: int| 0 <= j < i ==> self.model()[j].name != name@,
            decreases n - i,
        {
            if str_eq(self.sources[i].name.as_str(), name) {
                return Some(i);
            }
            i += 1;
        }
        proof {
            assert(!reg_has(self.model(), name@));
        }
        None
    }

    /// Register a live source.  A name with an embedded NUL is rejected;
    /// a record named like an existing one replaces it wholesale.
    pub fn register(
        &mut self,
        name: &str,
        has_video: bool,
        has_audio: bool,
        is_composite: bool,
        volume_mil: i64,
        settings: Data,
    ) -> (r: Result<(), Error>)
        requires
            old(self).wf(),
            settings.wf(),
        ensures
            final(self).wf(),
            nul_free(name@) ==> r is Ok && final(self).model() == spec_register(
                old(self).model(),
                SourceModel {
                    name: name@,
                    has_video,
                    has_audio,
                    is_composite,
                    volume_mil: volume_mil as int,
                    settings: settings.obj_model(),
                    refs: 0,
                },
            ),
            !nul_free(name@) ==> r == Err::<(), Error>(Error::EncodingError) && final(self).model()
                == old(self).model(),
    {
        if !check_nul_free(name) {
            return Err(Error::EncodingError);
        }
        let source = Source {
            name: String::from_str(name),
            has_video,
            has_audio,
            is_composite,
            volume_mil,
            settings,
            refs: 0,
        };
        proof {
            lemma_sources_model(self.sources@);
        }
        let found = self.find(name);
        match found {
            Some(i) => {
                proof {
                    assert(reg_index(old(self).model(), name@) == i) by {
                        let j = reg_index(old(self).model(), name@);
                        assert(old(self).model()[j].name == name@);
                    }
                }
                self.sources[i] = source;
                proof {
                    lemma_sources_model_update(old(self).sources@, i as int, source);
                    assert(self.model() =~= spec_register(old(self).model(), source.model()));
                    lemma_wf_after_update(old(self).model(), i as int, source.model());
                }
            },
            None => {
                self.sources.push(source);
                proof {
                    assert(self.sources@.drop_last() =~= old(self).sources@);
                    lemma_sources_model(self.sources@);
                    lemma_sources_model(old(self).sources@);
                    assert(self.model() =~= spec_register(old(self).model(), source.model()));
                    assert forall|a: int, b: int|
                        0 <= a < b < self.model().len() implies self.model()[a].name
                        != self.model()[b].name by {
                        if b == self.model().len() - 1 {
                            assert(self.model()[a] == old(self).model()[a]);
                        }
                    }
                }
            },
        }
        Ok(())
    }

    /// Look the named source up and acquire it: its reference count rises
    /// by one, and the returned handle owes exactly one release.
    pub fn by_name(&mut self, name: &str) -> (r: Result<SourceHandle, Error>)
        requires
            old(self).wf(),
            // machine limit: a reference count must have room for one more
            forall|i: int|
                0 <= i < old(self).model().len() ==> (#[trigger] old(self).model()[i]).refs
                    < u64::MAX,
        ensures
            final(self).wf(),
            match r {
                Ok(h) => {
                    &&& reg_has(old(self).model(), name@)
                    &&& h.index() == reg_index(old(self).model(), name@)
                    &&& final(self).model() == old(self).model().update(
                        h.index(),
                        SourceModel {
                            refs: old(self).model()[h.index()].refs + 1,
                            ..old(self).model()[h.index()]
                        },
                    )
                },
                Err(e) => {
                    &&& e matches Error::LookupError { kind, name: n } && kind
                        == LookupKind::Source && n@ == name@
                    &&& !reg_has(old(self).model(), name@)
                    &&& final(self).model() == old(self).model()
                },
            },
    {
        proof {
            lemma_sources_model(self.sources@);
        }
        let found = self.find(name);
        match found {
            Some(i) => {
                proof {
                    assert(reg_index(old(self).model(), name@) == i) by {
                        let j = reg_index(old(self).model(), name@);
                        assert(old(self).model()[j].name == name@);
                    }
                }
                let mut source = self.sources.remove(i);
                source.refs = source.refs + 1;
                self.sources.insert(i, source);
                proof {
                    assert(self.sources@ =~= old(self).sources@.update(i as int, source));
                    lemma_sources_model_update(old(self).sources@, i as int, source);
                    assert(self.model() =~= old(self).model().update(
                        i as int,
                        SourceModel {
                            refs: old(self).model()[i as int].refs + 1,
                            ..old(self).model()[i as int]
                        },
                    ));
                    lemma_wf_after_update(
                        old(self).model(),
                        i as int,
                        self.model()[i as int],
                    );
                }
                Ok(SourceHandle { index: i })
            },
            None => Err(Error::LookupError {
                kind: LookupKind::Source,
                name: String::from_str(name),
            }),
        }
    }

    /// Surrender a handle: the matching release of its acquisition.
    pub fn release(&mut self, h: SourceHandle)
        requires
            old(self).wf(),
            0 <= h.index() < old(self).model().len(),
            old(self).model()[h.index()].refs > 0,
        ensures
            final(self).wf(),
            final(self).model() == old(self).model().update(
                h.index(),
                SourceModel {
                    refs: old(self).model()[h.index()].refs - 1,
                    ..old(self).model()[h.index()]
                },
            ),
    {
        proof {
            lemma_sources_model(self.sources@);
        }
        let i = h.position();
        let mut source = self.sources.remove(i);
        source.refs = source.refs - 1;
        self.sources.insert(i, source);
        proof {
            assert(self.sources@ =~= old(self).sources@.update(i as int, source));
            lemma_sources_model_update(old(self).sources@, i as int, source);
            assert(self.model() =~= old(self).model().update(
                i as int,
                SourceModel {
                    refs: old(self).model()[i as int].refs - 1,
                    ..old(self).model()[i as int]
                },
            ));
            lemma_wf_after_update(old(self).model(), i as int, self.model()[i as int]);
        }
    }

    /// Read through a handle, for the capability queries.
    pub fn read(&self, h: &SourceHandle) -> (r: &Source)
        requires
            0 <= h.index() < self.model().len(),
        ensures
            r.model() == self.model()[h.index()],
    {
        proof {
            lemma_sources_model(self.sources@);
        }
        &self.sources[h.position()]
    }

    /// Replace the named source's stream target: a single-item playlist
    /// holding the new target is swapped in as one whole value.  An
    /// unknown name fails with a `LookupError` naming it; a target with an
    /// embedded NUL fails with `EncodingError`.  Either way every other
    /// source, and every reference count, is left exactly as found.
    pub fn set_stream_url(&mut self, name: &str, url: &str) -> (r: Result<(), Error>)
        requires
            old(self).wf(),
        ensures
            final(self).wf(),
            reg_has(old(self).model(), name@) && nul_free(url@) ==> r is Ok && final(self).model()
                == spec_set_stream(old(self).model(), name@, url@),
            !reg_has(old(self).model(), name@) ==> final(self).model() == old(self).model() && (
            r matches Err(e) && e matches Error::LookupError { kind, name: n } && kind
                == LookupKind::Source && n@ == name@),
            reg_has(old(self).model(), name@) && !nul_free(url@) ==> final(self).model() == old(
                self,
            ).model() && r == Err::<(), Error>(Error::EncodingError),
    {
        proof {
            lemma_sources_model(self.sources@);
        }
        let found = self.find(name);
        match found {
            None => Err(Error::LookupError {
                kind: LookupKind::Source,
                name: String::from_str(name),
            }),
            Some(i) => {
                if !check_nul_free(url) {
                    return Err(Error::EncodingError);
                }
                proof {
                    reveal_strlit("hidden");
                    reveal_strlit("selected");
                    reveal_strlit("value");
                    reveal_strlit("playlist");
                    assert(nul_free("hidden"@));
                    assert(nul_free("selected"@));
                    assert(nul_free("value"@));
                    assert(nul_free("playlist"@));
                    assert("hidden"@ != "selected"@ && "hidden"@ != "value"@ && "selected"@
                        != "value"@);
                    assert(reg_index(old(self).model(), name@) == i) by {
                        let j = reg_index(old(self).model(), name@);
                        assert(old(self).model()[j].name == name@);
                    }
                }
                let mut item = Data::new();
                let _ = item.set_bool("hidden", false);
                let _ = item.set_bool("selected", false);
                let _ = item.set_string("value", url);
                proof {
                    assert(item.obj_model() =~= playlist_entries(url@));
                }
                let mut playlist = Array::new();
                playlist.push_back(item);
                proof {
                    assert(playlist.model() =~= seq![playlist_entries(url@)]);
                }
                let mut source = self.sources.remove(i);
                proof {
                    assert(wf_obj(source.settings.obj_model()));
                }
                let _ = source.settings.set_array("playlist", playlist);
                self.sources.insert(i, source);
                proof {
                    assert(self.sources@ =~= old(self).sources@.update(i as int, source));
                    lemma_sources_model_update(old(self).sources@, i as int, source);
                    assert(source.model() == SourceModel {
                        settings: upsert(
                            old(self).model()[i as int].settings,
                            "playlist"@,
                            ValModel::A(seq![playlist_entries(url@)]),
                        ),
                        ..old(self).model()[i as int]
                    });
                    assert(self.model() =~= spec_set_stream(old(self).model(), name@, url@));
                    lemma_wf_after_update(old(self).model(), i as int, source.model());
                }
                Ok(())
            },
        }
    }

    /// Replace the named source's volume, in thousandths of unit gain.
    /// An unknown name fails with a `LookupError` naming it; every other
    /// source is left exactly as found.
    pub fn set_volume(&mut self, name: &str, volume_mil: i64) -> (r: Result<(), Error>)
        requires
            old(self).wf(),
        ensures
            final(self).wf(),
            reg_has(old(self).model(), name@) ==> r is Ok && final(self).model()
                == spec_set_volume(old(self).model(), name@, volume_mil as int),
            !reg_has(old(self).model(), name@) ==> final(self).model() == old(self).model() && (
            r matches Err(e) && e matches Error::LookupError { kind, name: n } && kind
                == LookupKind::Source && n@ == name@),
    {
        proof {
            lemma_sources_model(self.sources@);
        }
        let found = self.find(name);
        match found {
            None => Err(Error::LookupError {
                kind: LookupKind::Source,
                name: String::from_str(name),
            }),
            Some(i) => {
                proof {
                    assert(reg_index(old(self).model(), name@) == i) by {
                        let j = reg_index(old(self).model(), name@);
                        assert(old(self).model()[j].name == name@);
                    }
                }
                let mut source = self.sources.remove(i);
                source.volume_mil = volume_mil;
                self.sources.insert(i, source);
                proof {
                    assert(self.sources@ =~= old(self).sources@.update(i as int, source));
                    lemma_sources_model_update(old(self).sources@, i as int, source);
                    assert(source.model() == SourceModel {
                        volume_mil: volume_mil as int,
                        ..old(self).model()[i as int]
                    });
                    assert(self.model() =~= spec_set_volume(
                        old(self).model(),
                        name@,
                        volume_mil as int,
                    ));
                    lemma_wf_after_update(old(self).model(), i as int, source.model());
                }
                Ok(())
            },
        }
    }

    /// Read the named source's volume, in thousandths of unit gain.
    pub fn get_volume(&self, name: &str) -> (r: Result<i64, Error>)
        requires
            self.wf(),
        ensures
            match r {
                Ok(v) => reg_has(self.model(), name@) && v == self.model()[reg_index(
                    self.model(),
                    name@,
                )].volume_mil,
                Err(e) => {
                    &&& !reg_has(self.model(), name@)
                    &&& e matches Error::LookupError { kind, name: n } && kind
                        == LookupKind::Source && n@ == name@
                },
            },
    {
        proof {
            lemma_sources_model(self.sources@);
        }
        let found = self.find(name);
        match found {
            None => Err(Error::LookupError {
                kind: LookupKind::Source,
                name: String::from_str(name),
            }),
            Some(i) => {
                proof {
                    assert(reg_index(self.model(), name@) == i) by {
                        let j = reg_index(self.model(), name@);
                        assert(self.model()[j].name == name@);
                    }
                }
                Ok(self.sources[i].volume_mil)
            },
        }
    }

    /// Read the named source's settings as their canonical text, so a
    /// status read can see, among other things, where its stream points.
    pub fn get_settings_json(&self, name: &str) -> (r: Result<String, Error>)
        requires
            self.wf(),
        ensures
            match r {
                Ok(t) => reg_has(self.model(), name@) && t@ == crate::json::ser_obj(
                    self.model()[reg_index(self.model(), name@)].settings,
                ),
                Err(e) => {
                    &&& !reg_has(self.model(), name@)
                    &&& e matches Error::LookupError { kind, name: n } && kind
                        == LookupKind::Source && n@ == name@
                },
            },
    {
        proof {
            lemma_sources_model(self.sources@);
        }
        let found = self.find(name);
        match found {
            None => Err(Error::LookupError {
                kind: LookupKind::Source,
                name: String::from_str(name),
            }),
            Some(i) => {
                proof {
                    assert(reg_index(self.model(), name@) == i) by {
                        let j = reg_index(self.model(), name@);
                        assert(self.model()[j].name == name@);
                    }
                }
                Ok(self.sources[i].settings.to_json())
            },
        }
    }

    /// A snapshot of every live source, in registry order: name,
    /// capability flags and volume, exactly as registered.
    pub fn snapshot(&self) -> (r: Vec<SourceStatus>)
        ensures
            r@.len() == self.model().len(),
            forall|i: int|
                0 <= i < r@.len() ==> {
                    &&& (#[trigger] r@[i]).name@ == self.model()[i].name
                    &&& r@[i].has_video == self.model()[i].has_video
                    &&& r@[i].has_audio == self.model()[i].has_audio
                    &&& r@[i].is_composite == self.model()[i].is_composite
                    &&& r@[i].volume_mil == self.model()[i].volume_mil
                },
    {
        proof {
            lemma_sources_model(self.sources@);
        }
        let n = self.sources.len();
        let mut out: Vec<SourceStatus> = Vec::new();
        let mut i: usize = 0;
        while i < n
            invariant
                n == self.sources@.len(),
                i <= n,
                self.model().len() == n,
                forall|j: int| 0 <= j < n ==> self.model()[j] == self.sources@[j].model(),
                out@.len() == i,
                forall|j: int|
                    0 <= j < i ==> {
                        &&& (#[trigger] out@[j]).name@ == self.model()[j].name
                        &&& out@[j].has_video == self.model()[j].has_video
                        &&& out@[j].has_audio == self.model()[j].has_audio
                        &&& out@[j].is_composite == self.model()[j].is_composite
                        &&& out@[j].volume_mil == self.model()[j].volume_mil
                    },
            decreases n - i,
        {
            let s = &self.sources[i];
            let status = SourceStatus {
                name: s.name.clone(),
                has_video: s.has_video,
                has_audio: s.has_audio,
                is_composite: s.is_composite,
                volume_mil: s.volume_mil,
            };
            out.push(status);
            i += 1;
        }
        out
    }
}

/// A volume write changes no name: the table keeps its shape.
pub proof fn lemma_set_volume_preserves_names(m: Seq<SourceModel>, name: Seq<char>, v: int)
    ensures
        spec_set_volume(m, name, v).len() == m.len(),
        forall|i: int|
            0 <= i < m.len() ==> (#[trigger] spec_set_volume(m, name, v)[i]).name == m[i].name,
{
    if reg_has(m, name) {
        let i = reg_index(m, name);
        assert(0 <= i < m.len() && m[i].name == name);
    }
}

/// With unique names, the named position survives a volume write.
pub proof fn lemma_set_volume_index_stable(m: Seq<SourceModel>, name: Seq<char>, v: int, n2: Seq<
    char,
>)
    requires
        forall|a: int, b: int| 0 <= a < b < m.len() ==> m[a].name != m[b].name,
        reg_has(m, n2),
    ensures
        reg_has(spec_set_volume(m, name, v), n2),
        reg_index(spec_set_volume(m, name, v), n2) == reg_index(m, n2),
{
    lemma_set_volume_preserves_names(m, name, v);
    let m2 = spec_set_volume(m, name, v);
    let j = reg_index(m, n2);
    assert(0 <= j < m.len() && m[j].name == n2);
    assert(m2[j].name == n2);
    assert(reg_has(m2, n2));
    let j2 = reg_index(m2, n2);
    assert(0 <= j2 < m2.len() && m2[j2].name == n2);
    assert(m[j2].name == n2);
    if j != j2 {
        if j < j2 {
            assert(m[j].name != m[j2].name);
        } else {
            assert(m[j2].name != m[j].name);
        }
        assert(false);
    }
}

/// Volume writes to two distinct sources are independent: they commute,
/// and each named source ends up with its own submitted value.
pub proof fn lemma_distinct_volume_writes_commute(
    m: Seq<SourceModel>,
    a: Seq<char>,
    va: int,
    b: Seq<char>,
    vb: int,
)
    requires
        a != b,
        forall|i: int, j: int| 0 <= i < j < m.len() ==> m[i].name != m[j].name,
    ensures
        spec_set_volume(spec_set_volume(m, a, va), b, vb) == spec_set_volume(
            spec_set_volume(m, b, vb),
            a,
            va,
        ),
        reg_has(m, a) ==> spec_set_volume(spec_set_volume(m, a, va), b, vb)[reg_index(
            m,
            a,
        )].volume_mil == va,
        reg_has(m, b) ==> spec_set_volume(spec_set_volume(m, a, va), b, vb)[reg_index(
            m,
            b,
        )].volume_mil == vb,
{
    lemma_set_volume_preserves_names(m, a, va);
    lemma_set_volume_preserves_names(m, b, vb);
    if reg_has(m, a) && reg_has(m, b) {
        let ia = reg_index(m, a);
        let ib = reg_index(m, b);
        assert(0 <= ia < m.len() && m[ia].name == a);
        assert(0 <= ib < m.len() && m[ib].name == b);
        assert(ia != ib);
        lemma_set_volume_index_stable(m, a, va, b);
        lemma_set_volume_index_stable(m, b, vb, a);
        let mab = spec_set_volume(spec_set_volume(m, a, va), b, vb);
        let mba = spec_set_volume(spec_set_volume(m, b, vb), a, va);
        assert(mab =~= mba);
        assert(mab[ia].volume_mil == va);
        assert(mab[ib].volume_mil == vb);
    } else if reg_has(m, a) {
        let ia = reg_index(m, a);
        assert(0 <= ia < m.len() && m[ia].name == a);
        lemma_set_volume_index_stable(m, a, va, a);
        assert(!reg_has(spec_set_volume(m, a, va), b)) by {
            if reg_has(spec_set_volume(m, a, va), b) {
                let j = reg_index(spec_set_volume(m, a, va), b);
                assert(spec_set_volume(m, a, va)[j].name == b);
                assert(m[j].name == b);
            }
        }
        assert(spec_set_volume(spec_set_volume(m, a, va), b, vb) =~= spec_set_volume(
            spec_set_volume(m, b, vb),
            a,
            va,
        ));
        assert(spec_set_volume(spec_set_volume(m, a, va), b, vb)[ia].volume_mil == va);
    } else if reg_has(m, b) {
        let ib = reg_index(m, b);
        assert(0 <= ib < m.len() && m[ib].name == b);
        lemma_set_volume_index_stable(m, b, vb, b);
        assert(!reg_has(spec_set_volume(m, b, vb), a)) by {
            if reg_has(spec_set_volume(m, b, vb), a) {
                let j = reg_index(spec_set_volume(m, b, vb), a);
                assert(spec_set_volume(m, b, vb)[j].name == a);
                assert(m[j].name == a);
            }
        }
        assert(spec_set_volume(spec_set_volume(m, a, va), b, vb) =~= spec_set_volume(
            spec_set_volume(m, b, vb),
            a,
            va,
        ));
        assert(spec_set_volume(spec_set_volume(m, a, va), b, vb)[ib].volume_mil == vb);
    } else {
        assert(spec_set_volume(spec_set_volume(m, a, va), b, vb) =~= spec_set_volume(
            spec_set_volume(m, b, vb),
            a,
            va,
        ));
    }
}

/// A stream-target change on a present source is visible to a subsequent
/// read: that source's settings afterwards bind the playlist to exactly
/// the one submitted entry, and nothing else about it changes.  Every
/// other source, and the whole table on an absent name, is left exactly
/// as found.
pub proof fn lemma_set_stream_effect(m: Seq<SourceModel>, name: Seq<char>, url: Seq<char>)
    requires
        nul_free(url),
        forall|i: int, j: int| 0 <= i < j < m.len() ==> m[i].name != m[j].name,
        forall|i: int| 0 <= i < m.len() ==> wf_obj((#[trigger] m[i]).settings),
    ensures
        !reg_has(m, name) ==> spec_set_stream(m, name, url) == m,
        reg_has(m, name) ==> spec_set_stream(m, name, url).len() == m.len(),
        reg_has(m, name) ==> forall|j: int|
            0 <= j < m.len() && j != reg_index(m, name) ==> spec_set_stream(m, name, url)[j]
                == m[j],
        reg_has(m, name) ==> {
            let after = spec_set_stream(m, name, url)[reg_index(m, name)];
            let before = m[reg_index(m, name)];
            &&& pairs_to_map(after.settings) == pairs_to_map(before.settings).insert(
                "playlist"@,
                ValModel::A(seq![playlist_entries(url)]),
            )
            &&& after.name == before.name
            &&& after.has_video == before.has_video
            &&& after.has_audio == before.has_audio
            &&& after.is_composite == before.is_composite
            &&& after.volume_mil == before.volume_mil
            &&& after.refs == before.refs
        },
{
    if reg_has(m, name) {
        let i = reg_index(m, name);
        assert(0 <= i < m.len() && m[i].name == name);
        assert(wf_obj(m[i].settings));
        proof_playlist_value_wf(url);
        crate::settings::lemma_upsert(
            m[i].settings,
            "playlist"@,
            ValModel::A(seq![playlist_entries(url)]),
        );
    }
}

/// The one-entry playlist value a stream-target change submits is well
/// formed whenever the target is NUL-free.
proof fn proof_playlist_value_wf(url: Seq<char>)
    requires
        nul_free(url),
    ensures
        nul_free("playlist"@),
        crate::settings::wf_val(ValModel::A(seq![playlist_entries(url)])),
{
    reveal_strlit("playlist");
    reveal_strlit("hidden");
    reveal_strlit("selected");
    reveal_strlit("value");
    assert(nul_free("playlist"@));
    let e = playlist_entries(url);
    assert(e[0] == ("hidden"@, ValModel::B(false)));
    assert(e[1] == ("selected"@, ValModel::B(false)));
    assert(e[2] == ("value"@, ValModel::S(url)));
    assert(wf_obj(e)) by {
        assert("hidden"@.len() == 6 && "selected"@.len() == 8 && "value"@.len() == 5);
        assert("hidden"@ != "selected"@ && "hidden"@ != "value"@ && "selected"@ != "value"@);
        assert(nul_free("hidden"@) && nul_free("selected"@) && nul_free("value"@));
        assert(forall|i: int| 0 <= i < e.len() ==> nul_free((#[trigger] e[i]).0));
        assert(forall|i: int| 0 <= i < e.len() ==> crate::settings::wf_val((#[trigger] e[i]).1));
    }
    assert(crate::settings::wf_items(seq![e])) by {
        assert(seq![e][0] == e);
    }
}

/// Two volume writes racing on one source converge on the later submitted
/// value, whole: never a mixture of the two.
pub proof fn lemma_same_source_volume_last_wins(
    m: Seq<SourceModel>,
    name: Seq<char>,
    v1: int,
    v2: int,
)
    requires
        forall|i: int, j: int| 0 <= i < j < m.len() ==> m[i].name != m[j].name,
    ensures
        spec_set_volume(spec_set_volume(m, name, v1), name, v2) == spec_set_volume(m, name, v2),
{
    if reg_has(m, name) {
        let i = reg_index(m, name);
        assert(0 <= i < m.len() && m[i].name == name);
        lemma_set_volume_index_stable(m, name, v1, name);
        assert(spec_set_volume(spec_set_volume(m, name, v1), name, v2) =~= spec_set_volume(
            m,
            name,
            v2,
        ));
    }
}

/// An acquisition followed by its release leaves the table exactly as it
/// was: reference counts never drift.
pub proof fn lemma_acquire_release_balances(m: Seq<SourceModel>, i: int)
    requires
        0 <= i < m.len(),
    ensures
        m.update(i, SourceModel { refs: m[i].refs + 1, ..m[i] }).update(
            i,
            SourceModel {
                refs: m.update(i, SourceModel { refs: m[i].refs + 1, ..m[i] })[i].refs - 1,
                ..m.update(i, SourceModel { refs: m[i].refs + 1, ..m[i] })[i]
            },
        ) == m,
{
    let m1 = m.update(i, SourceModel { refs: m[i].refs + 1, ..m[i] });
    let m2 = m1.update(i, SourceModel { refs: m1[i].refs - 1, ..m1[i] });
    assert(m2[i] == m[i]);
    assert(m2 =~= m);
}

/// Updating one source re-models pointwise.
pub proof fn lemma_sources_model_update(s: Seq<Source>, i: int, src: Source)
    requires
        0 <= i < s.len(),
    ensures
        sources_model(s.update(i, src)) =~= sources_model(s).update(i, src.model()),
{
    lemma_sources_model(s);
    lemma_sources_model(s.update(i, src));
}

/// Replacing one record with an equally well-formed, same-named record
/// keeps the table well formed.
pub proof fn lemma_wf_after_update(m: Seq<SourceModel>, i: int, sm: SourceModel)
    requires
        0 <= i < m.len(),
        sm.name == m[i].name,
        nul_free(sm.name),
        wf_obj(sm.settings),
        forall|a: int, b: int| 0 <= a < b < m.len() ==> m[a].name != m[b].name,
        forall|a: int| 0 <= a < m.len() ==> nul_free((#[trigger] m[a]).name),
        forall|a: int| 0 <= a < m.len() ==> wf_obj((#[trigger] m[a]).settings),
    ensures
        forall|a: int, b: int|
            0 <= a < b < m.update(i, sm).len() ==> m.update(i, sm)[a].name != m.update(
                i,
                sm,
            )[b].name,
        forall|a: int|
            0 <= a < m.update(i, sm).len() ==> nul_free((#[trigger] m.update(i, sm)[a]).name),
        forall|a: int|
            0 <= a < m.update(i, sm).len() ==> wf_obj((#[trigger] m.update(i, sm)[a]).settings),
{
}

} // verus!
