use vstd::prelude::*;
use std::sync::Arc;
use crate::memory::{error_message, Memory, MemoryError, MemoryFault, MemoryView};
use crate::store::{
    delete_outcome, file_views, get_outcome, join_path, listing, memory_views, opt_text, path_in,
    query_hits, record_file_name, MemoryStore, StoredFile,
};
use crate::text::lower_of;
use crate::timestamp::Timestamp;

verus! {

/// Relies on `dirs::home_dir`: the user's home directory, if the platform
/// reports one, as text.
#[verifier::external_body]
fn home_dir() -> (r: Option<String>) {
    match dirs::home_dir() {
        Some(p) => Some(p.to_string_lossy().into_owned()),
        None => None,
    }
}

/// Relies on `Arc::clone`: another pointer to the same value.
#[verifier::external_body]
fn share(a: &Arc<MemoryStore>) -> (r: Arc<MemoryStore>)
    ensures
        r == *a,
{
    Arc::clone(a)
}

/// The directory of records under a home directory: `.conduit/memories`.
pub open spec fn default_memory_path(home: Seq<char>) -> Seq<char> {
    path_in(path_in(home, ".conduit"@), "memories"@)
}

/// The directory of records: the one given, else the default one under the
/// home directory, else an error where there is no home directory.
pub open spec fn resolved_path(given: Option<Seq<char>>, home: Option<Seq<char>>) -> Result<Seq<char>, Seq<char>> {
    match given {
        Some(p) => Ok(p),
        None => match home {
            Some(h) => Ok(default_memory_path(h)),
            None => Err("Could not find home directory"@),
        },
    }
}

/// Picks the directory of records from the one given and the home directory.
pub fn resolve_memory_path(memory_path: Option<String>, home: Option<String>) -> (r: Result<String, String>)
    ensures
        r matches Ok(p) ==> resolved_path(opt_text(memory_path), opt_text(home)) == Ok::<Seq<char>, Seq<char>>(p@),
        r matches Err(e) ==> resolved_path(opt_text(memory_path), opt_text(home)) == Err::<Seq<char>, Seq<char>>(e@),
{
    match memory_path {
        Some(p) => Ok(p),
        None => match home {
            Some(h) => {
                let dir = join_path(h.as_str(), ".conduit");
                Ok(join_path(dir.as_str(), "memories"))
            },
            None => Err("Could not find home directory".to_owned()),
        },
    }
}

/// A reply of the service: the data, with an error message where the request
/// failed.
pub struct ApiResponse<T> {
    pub data: T,
    pub error: Option<String>,
}

impl<T> ApiResponse<T> {
    /// A reply that carries `data` and no error.
    pub fn success(data: T) -> (r: Self)
        ensures
            r.data == data,
            r.error is None,
    {
        ApiResponse { data, error: None }
    }

    /// A reply that carries `data` and the error message `error`.
    pub fn error(data: T, error: String) -> (r: Self)
        ensures
            r.data == data,
            r.error == Some(error),
    {
        ApiResponse { data, error: Some(error) }
    }
}

/// A failure of the service.
#[derive(Debug)]
pub enum ApiError {
    /// The store failed.
    Memory(MemoryError),
    /// The request was not acceptable; the text says why.
    InvalidRequest(String),
    /// The service failed otherwise; the text says how.
    Server(String),
}

impl From<MemoryError> for ApiError {
    fn from(e: MemoryError) -> (r: ApiError) {
        ApiError::Memory(e)
    }
}

impl vstd::std_specs::convert::FromSpecImpl<MemoryError> for ApiError {
    open spec fn obeys_from_spec() -> bool {
        true
    }

    open spec fn from_spec(e: MemoryError) -> ApiError {
        ApiError::Memory(e)
    }
}

/// The description of a service failure.
pub open spec fn api_error_message(e: ApiError) -> Seq<char> {
    match e {
        ApiError::Memory(m) => "Memory error: "@ + error_message(m@),
        ApiError::InvalidRequest(s) => "Invalid request: "@ + s@,
        ApiError::Server(s) => "Server error: "@ + s@,
    }
}

impl ApiError {
    /// A human-readable description of the failure.
    pub fn message(&self) -> (r: String)
        ensures
            r@ == api_error_message(*self),
    {
        match self {
            ApiError::Memory(m) => {
                let mut s = "Memory error: ".to_owned();
                s.append(m.message().as_str());
                s
            },
            ApiError::InvalidRequest(d) => {
                let mut s = "Invalid request: ".to_owned();
                s.append(d.as_str());
                s
            },
            ApiError::Server(d) => {
                let mut s = "Server error: ".to_owned();
                s.append(d.as_str());
                s
            },
        }
    }
}

/// The entry point of the service: a store of records and what callers ask of it.
pub struct ConduitBackend {
    memory_store: Arc<MemoryStore>,
}

impl ConduitBackend {
    /// The store of records of this service.
    pub closed spec fn store(&self) -> MemoryStore {
        *self.memory_store
    }

    /// A service over the directory given, else the default one under the home
    /// directory; fails where neither is known.
    pub fn new(memory_path: Option<String>) -> (r: Result<ConduitBackend, String>)
        ensures
            memory_path matches Some(p) ==> r matches Ok(b) && b.store().base_path@ == p@,
            r matches Ok(b) ==> (memory_path is None ==> exists|h: Seq<char>|
                b.store().base_path@ == default_memory_path(h)),
            r matches Err(e) ==> memory_path is None && e@ == "Could not find home directory"@,
    {
        let home = match memory_path {
            Some(_) => None,
            None => home_dir(),
        };
        match resolve_memory_path(memory_path, home) {
            Ok(p) => Ok(ConduitBackend::with_store(MemoryStore::new(p))),
            Err(e) => Err(e),
        }
    }

    /// A service over the store given.
    pub fn with_store(store: MemoryStore) -> (r: ConduitBackend)
        ensures
            r.store() == store,
    {
        ConduitBackend { memory_store: Arc::new(store) }
    }

    /// A new record and the path and text to write so that it is stored.
    pub fn create_memory(&self, title: String, content: String, tags: Vec<String>) -> (r: (
        Memory,
        (String, String),
    ))
        ensures
            r.0.title == title,
            r.0.content == content,
            r.0.tags == tags,
            crate::memory::uuid_text(r.0.id@),
            r.0.created_at == r.0.updated_at,
            r.0.wf(),
            r.1.0@ == path_in(self.store().base_path@, record_file_name(r.0.id@)),
            r.1.1@ == crate::memory::encode(r.0@),
    {
        let memory = Memory::new(title, content, tags);
        let write = self.memory_store.save(&memory);
        (memory, write)
    }

    /// The record `id`, given the text of its file if there is one; a failure
    /// comes as its description.
    pub fn get_memory(&self, id: &str, stored: Option<String>) -> (r: Result<Memory, String>)
        ensures
            r matches Ok(m) ==> get_outcome(id@, opt_text(stored)) == Ok::<MemoryView, MemoryFault>(m@),
            r matches Err(s) ==> get_outcome(id@, opt_text(stored)) matches Err(e) && s@ == error_message(e),
    {
        match self.memory_store.get(id, stored) {
            Ok(m) => Ok(m),
            Err(e) => Err(e.message()),
        }
    }

    /// The records of the store's files.
    pub fn list_memories(&self, files: &Vec<StoredFile>) -> (r: Vec<Memory>)
        ensures
            exists|t: Timestamp| t.wf() && memory_views(r@) == listing(file_views(files@), t),
    {
        self.memory_store.list(files)
    }

    /// The records of the store's files that match `query`, ignoring case.
    pub fn search_memories(&self, files: &Vec<StoredFile>, query: &str) -> (r: Vec<Memory>)
        ensures
            exists|t: Timestamp|
                t.wf() && memory_views(r@) == query_hits(listing(file_views(files@), t), lower_of(query@)),
    {
        self.memory_store.search(files, query)
    }

    /// The path of the file to remove so that the record `id` is deleted, given
    /// whether it exists; a failure comes as its description.
    pub fn delete_memory(&self, id: &str, exists: bool) -> (r: Result<String, String>)
        ensures
            r is Ok <==> exists,
            r matches Ok(p) ==> p@ == path_in(self.store().base_path@, record_file_name(id@)),
            r matches Err(s) ==> delete_outcome(id@, exists) matches Err(e) && s@ == error_message(e),
    {
        match self.memory_store.delete(id, exists) {
            Ok(p) => Ok(p),
            Err(e) => Err(e.message()),
        }
    }

    /// The store of records, shared.
    pub fn memory_store(&self) -> (r: Arc<MemoryStore>)
        ensures
            *r == self.store(),
    {
        share(&self.memory_store)
    }
}

} // verus!
