//! The in-memory event and artifact store: an append-only event log whose
//! events are numbered per run, and artifacts kept by identifier.

use vstd::prelude::*;

use crate::error::AcosError;
use crate::json::JsonValue;
use crate::text::{push_text, str_eq, string_of};
use crate::traits::Event;
use crate::types::{uuid_string, uuid_text, ArtifactId, RunId};

verus! {

/// An artifact kept by the store.
pub struct StoredArtifact {
    pub id: ArtifactId,
    pub run_id: RunId,
    pub name: String,
    pub content: Vec<u8>,
}

/// The events of one run, in the order they were appended.
pub open spec fn run_events(log: Seq<Event>, run_id: RunId) -> Seq<Event>
    decreases log.len(),
{
    if log.len() == 0 {
        seq![]
    } else if log.last().run_id == run_id {
        run_events(log.drop_last(), run_id).push(log.last())
    } else {
        run_events(log.drop_last(), run_id)
    }
}

/// The artifact with identifier `id`.
pub open spec fn artifact_of(arts: Seq<StoredArtifact>, id: ArtifactId) -> Option<StoredArtifact>
    decreases arts.len(),
{
    if arts.len() == 0 {
        None
    } else if arts[0].id == id {
        Some(arts[0])
    } else {
        artifact_of(arts.drop_first(), id)
    }
}

/// The first artifact of a run with a name.
pub open spec fn artifact_named(arts: Seq<StoredArtifact>, run_id: RunId, name: Seq<char>) -> Option<
    StoredArtifact,
>
    decreases arts.len(),
{
    if arts.len() == 0 {
        None
    } else if arts[0].run_id == run_id && arts[0].name@ == name {
        Some(arts[0])
    } else {
        artifact_named(arts.drop_first(), run_id, name)
    }
}

/// The names of a run's artifacts, in the order they were stored.
pub open spec fn names_of(arts: Seq<StoredArtifact>, run_id: RunId) -> Seq<Seq<char>>
    decreases arts.len(),
{
    if arts.len() == 0 {
        seq![]
    } else if arts.last().run_id == run_id {
        names_of(arts.drop_last(), run_id).push(arts.last().name@)
    } else {
        names_of(arts.drop_last(), run_id)
    }
}

/// Storing `a`: it replaces the artifact with its identifier, else is added.
pub open spec fn stored(arts: Seq<StoredArtifact>, a: StoredArtifact) -> Seq<StoredArtifact>
    decreases arts.len(),
{
    if arts.len() == 0 {
        seq![a]
    } else if arts[0].id == a.id {
        seq![a] + arts.drop_first()
    } else {
        seq![arts[0]] + stored(arts.drop_first(), a)
    }
}

/// The text of a `Debug`-printed artifact identifier.
pub open spec fn artifact_id_text(id: ArtifactId) -> Seq<char> {
    "ArtifactId("@ + uuid_text(id.0) + ")"@
}

/// The text of a `Debug`-printed run identifier.
pub open spec fn run_id_text(id: RunId) -> Seq<char> {
    "RunId("@ + uuid_text(id.0) + ")"@
}

/// An in-memory event and artifact store.
pub struct MemoryStore {
    events: Vec<Event>,
    artifacts: Vec<StoredArtifact>,
}

impl MemoryStore {
    /// Every event appended, in order.
    pub closed spec fn event_log(&self) -> Seq<Event> {
        self.events@
    }

    /// Every artifact kept.
    pub closed spec fn artifact_log(&self) -> Seq<StoredArtifact> {
        self.artifacts@
    }

    /// A new, empty store.
    pub fn new() -> (s: Self)
        ensures
            s.event_log().len() == 0,
            s.artifact_log().len() == 0,
    {
        MemoryStore { events: Vec::new(), artifacts: Vec::new() }
    }

    /// Appends an event to a run's log and returns its sequence number: one
    /// more than the number of events the run had.
    pub fn append(&mut self, run_id: RunId, event_type: String, payload: JsonValue) -> (seq: u64)
        requires
            run_events(old(self).event_log(), run_id).len() < u64::MAX,
        ensures
            seq == run_events(old(self).event_log(), run_id).len() + 1,
            final(self).event_log() == old(self).event_log().push(
                Event { seq, run_id, event_type, payload },
            ),
            final(self).artifact_log() == old(self).artifact_log(),
    {
        let mut n: u64 = 0;
        let mut i: usize = 0;
        while i < self.events.len()
            invariant
                i <= self.events@.len(),
                n == run_events(self.events@.take(i as int), run_id).len(),
                n <= i,
                run_events(self.events@, run_id).len() < u64::MAX,
            decreases self.events@.len() - i,
        {
            assert(self.events@.take(i + 1).drop_last() =~= self.events@.take(i as int));
            if self.events[i].run_id == run_id {
                proof {
                    lemma_run_events_len(self.events@.take(i + 1), self.events@, run_id);
                }
                n = n + 1;
            }
            i = i + 1;
        }
        assert(self.events@.take(i as int) =~= self.events@);
        let seq = n + 1;
        self.events.push(Event { seq, run_id, event_type, payload });
        seq
    }

    /// The events of a run, in the order they were appended.
    pub fn events_for(&self, run_id: RunId) -> (r: Vec<&Event>)
        ensures
            r@.map_values(|e: &Event| *e) == run_events(self.event_log(), run_id),
    {
        let mut r: Vec<&Event> = Vec::new();
        let mut i: usize = 0;
        while i < self.events.len()
            invariant
                i <= self.events@.len(),
                r@.map_values(|e: &Event| *e) == run_events(self.events@.take(i as int), run_id),
            decreases self.events@.len() - i,
        {
            assert(self.events@.take(i + 1).drop_last() =~= self.events@.take(i as int));
            let ghost before = r@.map_values(|e: &Event| *e);
            if self.events[i].run_id == run_id {
                r.push(&self.events[i]);
                assert(r@.map_values(|e: &Event| *e) =~= before.push(self.events@[i as int]));
            }
            i = i + 1;
        }
        assert(self.events@.take(i as int) =~= self.events@);
        r
    }

    /// Stores an artifact under a fresh identifier and returns it.
    #[verifier::loop_isolation(false)]
    pub fn put(&mut self, run_id: RunId, name: String, content: Vec<u8>) -> (id: ArtifactId)
        ensures
            final(self).artifact_log() == stored(
                old(self).artifact_log(),
                StoredArtifact { id, run_id, name, content },
            ),
            final(self).event_log() == old(self).event_log(),
    {
        let id = ArtifactId::new();
        let a = StoredArtifact { id, run_id, name, content };
        let ghost arts = self.artifacts@;
        let mut i: usize = 0;
        while i < self.artifacts.len()
            invariant
                i <= arts.len(),
                self.artifacts@ == arts,
                self.events@ == old(self).events@,
                forall|k: int| 0 <= k < i ==> arts[k].id != id,
            decreases arts.len() - i,
        {
            if self.artifacts[i].id == id {
                proof {
                    lemma_stored_replaces(arts, a, i as int);
                }
                self.artifacts.set(i, a);
                return id;
            }
            i = i + 1;
        }
        proof {
            lemma_stored_appends(arts, a);
        }
        self.artifacts.push(a);
        id
    }

    /// The content of the artifact with identifier `id`.
    #[verifier::loop_isolation(false)]
    pub fn get(&self, id: ArtifactId) -> (r: Result<&Vec<u8>, AcosError>)
        ensures
            match artifact_of(self.artifact_log(), id) {
                Some(a) => r matches Ok(c) && *c == a.content,
                None => r matches Err(AcosError::ValidationFailure { message }) && message@
                    == "artifact "@ + artifact_id_text(id) + " not found"@,
            },
    {
        let arts = &self.artifacts;
        let mut i: usize = 0;
        assert(arts@.skip(0) =~= arts@);
        while i < arts.len()
            invariant
                i <= arts@.len(),
                artifact_of(arts@, id) == artifact_of(arts@.skip(i as int), id),
            decreases arts@.len() - i,
        {
            assert(arts@.skip(i as int)[0] == arts@[i as int]);
            assert(arts@.skip(i as int).drop_first() =~= arts@.skip(i + 1));
            if arts[i].id == id {
                return Ok(&arts[i].content);
            }
            i = i + 1;
        }
        let mut m = string_of("artifact ");
        push_text(&mut m, "ArtifactId(");
        let t = uuid_string(id.0);
        push_text(&mut m, t.as_str());
        push_text(&mut m, ")");
        push_text(&mut m, " not found");
        assert(m@ =~= "artifact "@ + artifact_id_text(id) + " not found"@);
        Err(AcosError::ValidationFailure { message: m })
    }

    /// The content of the first artifact of a run with a name.
    #[verifier::loop_isolation(false)]
    pub fn get_by_name(&self, run_id: RunId, name: &str) -> (r: Result<&Vec<u8>, AcosError>)
        ensures
            match artifact_named(self.artifact_log(), run_id, name@) {
                Some(a) => r matches Ok(c) && *c == a.content,
                None => r matches Err(AcosError::ValidationFailure { message }) && message@
                    == "artifact '"@ + name@ + "' not found for run "@ + run_id_text(run_id),
            },
    {
        let arts = &self.artifacts;
        let mut i: usize = 0;
        assert(arts@.skip(0) =~= arts@);
        while i < arts.len()
            invariant
                i <= arts@.len(),
                artifact_named(arts@, run_id, name@) == artifact_named(
                    arts@.skip(i as int),
                    run_id,
                    name@,
                ),
            decreases arts@.len() - i,
        {
            assert(arts@.skip(i as int)[0] == arts@[i as int]);
            assert(arts@.skip(i as int).drop_first() =~= arts@.skip(i + 1));
            if arts[i].run_id == run_id && str_eq(arts[i].name.as_str(), name) {
                return Ok(&arts[i].content);
            }
            i = i + 1;
        }
        let mut m = string_of("artifact '");
        push_text(&mut m, name);
        push_text(&mut m, "' not found for run ");
        push_text(&mut m, "RunId(");
        let t = uuid_string(run_id.0);
        push_text(&mut m, t.as_str());
        push_text(&mut m, ")");
        assert(m@ =~= "artifact '"@ + name@ + "' not found for run "@ + run_id_text(run_id));
        Err(AcosError::ValidationFailure { message: m })
    }

    /// The names of a run's artifacts.
    pub fn artifact_names(&self, run_id: RunId) -> (r: Vec<String>)
        ensures
            crate::refs::views(r@) == names_of(self.artifact_log(), run_id),
    {
        let mut r: Vec<String> = Vec::new();
        let mut i: usize = 0;
        while i < self.artifacts.len()
            invariant
                i <= self.artifacts@.len(),
                crate::refs::views(r@) == names_of(self.artifacts@.take(i as int), run_id),
            decreases self.artifacts@.len() - i,
        {
            assert(self.artifacts@.take(i + 1).drop_last() =~= self.artifacts@.take(i as int));
            if self.artifacts[i].run_id == run_id {
                let ghost before = r@;
                r.push(string_of(self.artifacts[i].name.as_str()));
                assert(crate::refs::views(r@) =~= crate::refs::views(before).push(
                    self.artifacts@[i as int].name@,
                ));
            }
            i = i + 1;
        }
        assert(self.artifacts@.take(i as int) =~= self.artifacts@);
        r
    }
}

proof fn lemma_run_events_len(prefix: Seq<Event>, log: Seq<Event>, run_id: RunId)
    requires
        prefix.len() <= log.len(),
        prefix == log.take(prefix.len() as int),
    ensures
        run_events(prefix, run_id).len() <= run_events(log, run_id).len(),
    decreases log.len() - prefix.len(),
{
    if prefix.len() < log.len() {
        let longer = log.take(prefix.len() + 1int);
        assert(longer.drop_last() =~= prefix);
        lemma_run_events_len(longer, log, run_id);
    } else {
        assert(prefix =~= log);
    }
}

proof fn lemma_stored_replaces(arts: Seq<StoredArtifact>, a: StoredArtifact, i: int)
    requires
        0 <= i < arts.len(),
        arts[i].id == a.id,
        forall|k: int| 0 <= k < i ==> arts[k].id != a.id,
    ensures
        stored(arts, a) == arts.update(i, a),
    decreases i,
{
    if i == 0 {
        assert(seq![a] + arts.drop_first() =~= arts.update(0, a));
    } else {
        lemma_stored_replaces(arts.drop_first(), a, i - 1);
        assert(seq![arts[0]] + arts.drop_first().update(i - 1, a) =~= arts.update(i, a));
    }
}

proof fn lemma_stored_appends(arts: Seq<StoredArtifact>, a: StoredArtifact)
    requires
        forall|k: int| 0 <= k < arts.len() ==> arts[k].id != a.id,
    ensures
        stored(arts, a) == arts.push(a),
    decreases arts.len(),
{
    if arts.len() > 0 {
        lemma_stored_appends(arts.drop_first(), a);
        assert(seq![arts[0]] + arts.drop_first().push(a) =~= arts.push(a));
    }
}

/// Reading an artifact back gives what was stored under its identifier.
pub proof fn lemma_get_after_put(arts: Seq<StoredArtifact>, a: StoredArtifact)
    ensures
        artifact_of(stored(arts, a), a.id) == Some(a),
    decreases arts.len(),
{
    if arts.len() > 0 && arts[0].id != a.id {
        lemma_get_after_put(arts.drop_first(), a);
        assert((seq![arts[0]] + stored(arts.drop_first(), a)).drop_first() =~= stored(
            arts.drop_first(),
            a,
        ));
    }
}

/// Storing an artifact leaves every other identifier's artifact unchanged.
pub proof fn lemma_put_keeps_others(arts: Seq<StoredArtifact>, a: StoredArtifact, id: ArtifactId)
    requires
        id != a.id,
    ensures
        artifact_of(stored(arts, a), id) == artifact_of(arts, id),
    decreases arts.len(),
{
    if arts.len() == 0 {
        assert(seq![a].drop_first() =~= seq![]);
        assert(artifact_of(seq![a].drop_first(), id) is None);
    } else if arts[0].id == a.id {
        let s = seq![a] + arts.drop_first();
        assert(s[0] == a);
        assert(s.drop_first() =~= arts.drop_first());
    } else {
        lemma_put_keeps_others(arts.drop_first(), a, id);
        let s = seq![arts[0]] + stored(arts.drop_first(), a);
        assert(s[0] == arts[0]);
        assert(s.drop_first() =~= stored(arts.drop_first(), a));
    }
}

/// Appending an event adds it at the end of its run's events and leaves
/// every other run's events unchanged.
pub proof fn lemma_append_extends_run(log: Seq<Event>, e: Event, run_id: RunId)
    ensures
        run_events(log.push(e), run_id) == if e.run_id == run_id {
            run_events(log, run_id).push(e)
        } else {
            run_events(log, run_id)
        },
{
    assert(log.push(e).drop_last() =~= log);
}

} // verus!
