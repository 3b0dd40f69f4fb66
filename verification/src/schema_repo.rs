//! In-memory storage of schema definitions keyed by schema identifier.
use vstd::prelude::*;
use vstd::string::*;
use crate::errors::ApplicationError;
use crate::keyed::TextMap;

verus! {

/// Identifier of a schema definition.
#[derive(Debug, Clone, PartialEq, Eq)]
pub struct SchemaId {
    value: String,
}

impl SchemaId {
    /// The identifier's text.
    pub closed spec fn text(&self) -> Seq<char> {
        self.value@
    }

    /// An identifier with the given text.
    pub fn new(id: &str) -> (r: Self)
        ensures
            r.text() == id@,
    {
        SchemaId { value: String::from_str(id) }
    }

    /// The identifier's text.
    pub fn as_str(&self) -> (r: &str)
        ensures
            r@ == self.text(),
    {
        self.value.as_str()
    }
}

/// Text of the error for storing under an identifier that is taken.
pub open spec fn conflict_text(id: Seq<char>) -> Seq<char> {
    "Schema with ID '"@ + id + "' already exists"@
}

/// Text of the error for an identifier that has no schema.
pub open spec fn not_found_text(id: Seq<char>) -> Seq<char> {
    "Schema with ID '"@ + id + "' not found"@
}

fn conflict_error(id: &SchemaId) -> (e: ApplicationError)
    ensures
        e matches ApplicationError::Conflict(m) && m@ == conflict_text(id.text()),
{
    let m = String::from_str("Schema with ID '").concat(id.as_str()).concat("' already exists");
    ApplicationError::Conflict(m)
}

fn not_found_error(id: &SchemaId) -> (e: ApplicationError)
    ensures
        e matches ApplicationError::NotFound(m) && m@ == not_found_text(id.text()),
{
    let m = String::from_str("Schema with ID '").concat(id.as_str()).concat("' not found");
    ApplicationError::NotFound(m)
}

/// Schema definitions stored by identifier.
#[derive(Debug)]
pub struct SchemaRepository<S> {
    schemas: TextMap<S>,
}

impl<S> SchemaRepository<S> {
    /// The stored schemas, by identifier text.
    pub closed spec fn view_map(&self) -> Map<Seq<char>, S> {
        self.schemas.view_map()
    }

    /// The repository's invariant.
    pub closed spec fn wf(&self) -> bool {
        self.schemas.wf()
    }

    /// An empty repository.
    pub fn new() -> (r: Self)
        ensures
            r.wf(),
            r.view_map() == Map::<Seq<char>, S>::empty(),
    {
        SchemaRepository { schemas: TextMap::new() }
    }

    /// Stores a schema under an identifier that has none yet; an identifier
    /// that is taken is refused with `Conflict` and nothing changes.
    pub fn store(&mut self, id: SchemaId, schema: S) -> (r: Result<(), ApplicationError>)
        requires
            old(self).wf(),
        ensures
            final(self).wf(),
            old(self).view_map().dom().contains(id.text()) ==> {
                &&& final(self).view_map() == old(self).view_map()
                &&& r matches Err(ApplicationError::Conflict(m)) && m@ == conflict_text(id.text())
            },
            !old(self).view_map().dom().contains(id.text()) ==> {
                &&& final(self).view_map() == old(self).view_map().insert(id.text(), schema)
                &&& r is Ok
            },
    {
        if self.schemas.contains_key(id.as_str()) {
            return Err(conflict_error(&id));
        }
        let key = String::from_str(id.as_str());
        let _ = self.schemas.insert(key, schema);
        Ok(())
    }

    /// Replaces the schema of an identifier and returns the one it had. The
    /// new schema is stored whether or not the identifier had one; when it had
    /// none the result is `NotFound`.
    pub fn update(&mut self, id: SchemaId, schema: S) -> (r: Result<S, ApplicationError>)
        requires
            old(self).wf(),
        ensures
            final(self).wf(),
            final(self).view_map() == old(self).view_map().insert(id.text(), schema),
            old(self).view_map().dom().contains(id.text()) ==> r == Ok::<S, ApplicationError>(
                old(self).view_map()[id.text()],
            ),
            !old(self).view_map().dom().contains(id.text()) ==> (r matches Err(
                ApplicationError::NotFound(m),
            ) && m@ == not_found_text(id.text())),
    {
        let key = String::from_str(id.as_str());
        match self.schemas.insert(key, schema) {
            Some(previous) => Ok(previous),
            None => Err(not_found_error(&id)),
        }
    }

    /// Stores a schema whether or not the identifier had one, and returns the
    /// one it replaced.
    pub fn store_or_update(&mut self, id: SchemaId, schema: S) -> (r: Result<
        Option<S>,
        ApplicationError,
    >)
        requires
            old(self).wf(),
        ensures
            final(self).wf(),
            final(self).view_map() == old(self).view_map().insert(id.text(), schema),
            old(self).view_map().dom().contains(id.text()) ==> r == Ok::<
                Option<S>,
                ApplicationError,
            >(Some(old(self).view_map()[id.text()])),
            !old(self).view_map().dom().contains(id.text()) ==> r == Ok::<
                Option<S>,
                ApplicationError,
            >(None),
    {
        let key = String::from_str(id.as_str());
        Ok(self.schemas.insert(key, schema))
    }

    /// The schema stored under an identifier; `NotFound` when there is none.
    pub fn get(&self, id: &SchemaId) -> (r: Result<&S, ApplicationError>)
        requires
            self.wf(),
        ensures
            self.view_map().dom().contains(id.text()) ==> r == Ok::<&S, ApplicationError>(
                &self.view_map()[id.text()],
            ),
            !self.view_map().dom().contains(id.text()) ==> (r matches Err(
                ApplicationError::NotFound(m),
            ) && m@ == not_found_text(id.text())),
    {
        match self.schemas.get(id.as_str()) {
            Some(s) => Ok(s),
            None => Err(not_found_error(id)),
        }
    }

    /// Whether an identifier has a schema.
    pub fn contains(&self, id: &SchemaId) -> (r: bool)
        requires
            self.wf(),
        ensures
            r == self.view_map().dom().contains(id.text()),
    {
        self.schemas.contains_key(id.as_str())
    }

    /// Removes the schema of an identifier and returns it; `NotFound` when
    /// there is none.
    pub fn delete(&mut self, id: &SchemaId) -> (r: Result<S, ApplicationError>)
        requires
            old(self).wf(),
        ensures
            final(self).wf(),
            final(self).view_map() == old(self).view_map().remove(id.text()),
            old(self).view_map().dom().contains(id.text()) ==> r == Ok::<S, ApplicationError>(
                old(self).view_map()[id.text()],
            ),
            !old(self).view_map().dom().contains(id.text()) ==> (r matches Err(
                ApplicationError::NotFound(m),
            ) && m@ == not_found_text(id.text())),
    {
        match self.schemas.remove(id.as_str()) {
            Some(s) => Ok(s),
            None => Err(not_found_error(id)),
        }
    }

    /// Every identifier that has a schema, each once.
    pub fn list_ids(&self) -> (r: Vec<SchemaId>)
        requires
            self.wf(),
        ensures
            r@.len() == self.view_map().dom().len(),
            forall|k: Seq<char>|
                self.view_map().dom().contains(k) <==> exists|i: int|
                    0 <= i < r@.len() && (#[trigger] r@[i]).text() == k,
    {
        let keys = self.schemas.keys();
        let mut out: Vec<SchemaId> = Vec::new();
        let mut i: usize = 0;
        while i < keys.len()
            invariant
                i <= keys@.len(),
                out@.len() == i,
                forall|j: int| 0 <= j < i ==> (#[trigger] out@[j]).text() == keys@[j]@,
            decreases keys@.len() - i,
        {
            out.push(SchemaId::new(keys[i].as_str()));
            i = i + 1;
        }
        proof {
            assert forall|k: Seq<char>| self.view_map().dom().contains(k) implies exists|i: int|
                0 <= i < out@.len() && (#[trigger] out@[i]).text() == k by {
                let i = choose|i: int| 0 <= i < keys@.len() && (#[trigger] keys@[i])@ == k;
                assert(out@[i].text() == k);
            }
            assert forall|k: Seq<char>| (exists|i: int| 0 <= i < out@.len() && (#[trigger] out@[i]).text() == k)
                implies self.view_map().dom().contains(k) by {
                let i = choose|i: int| 0 <= i < out@.len() && (#[trigger] out@[i]).text() == k;
                assert(keys@[i]@ == k);
            }
        }
        out
    }

    /// Number of stored schemas.
    pub fn count(&self) -> (r: usize)
        requires
            self.wf(),
        ensures
            r == self.view_map().dom().len(),
    {
        self.schemas.len()
    }

    /// Removes every schema.
    pub fn clear(&mut self)
        ensures
            final(self).wf(),
            final(self).view_map() == Map::<Seq<char>, S>::empty(),
    {
        self.schemas.clear();
    }
}

impl<S> Default for SchemaRepository<S> {
    fn default() -> (r: Self)
        ensures
            r.wf(),
            r.view_map() == Map::<Seq<char>, S>::empty(),
    {
        Self::new()
    }
}

/// A schema stored under an identifier that had none is what a lookup of that
/// identifier then finds, the other identifiers keep their schemas, and
/// deleting it again gives back the repository as it was.
pub proof fn lemma_store_then_get<S>(before: Map<Seq<char>, S>, id: Seq<char>, schema: S)
    requires
        !before.dom().contains(id),
    ensures
        before.insert(id, schema).dom().contains(id),
        before.insert(id, schema)[id] == schema,
        forall|k: Seq<char>| k != id && before.dom().contains(k) ==> #[trigger] before.insert(id, schema)[k]
            == before[k],
        before.insert(id, schema).remove(id) == before,
{
    assert(before.insert(id, schema).remove(id) =~= before);
}

} // verus!
