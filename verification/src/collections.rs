//! The collection store: collections of saved requests, with folders, all
//! kept in keyed lists.

use vstd::prelude::*;

use crate::json::{jv, JsonValue, JsonVal};
use crate::text::str_eq;

verus! {

/// A saved request.
#[derive(Debug)]
pub struct Request {
    pub id: String,
    pub name: String,
    pub description: Option<String>,
    pub method: String,
    pub url: String,
    pub headers: Vec<(String, String)>,
    pub params: Vec<(String, String)>,
    pub body: Option<JsonValue>,
    pub auth: Option<JsonValue>,
}

/// The model of a saved request.
pub struct RequestV {
    pub id: Seq<char>,
    pub name: Seq<char>,
    pub description: Option<Seq<char>>,
    pub method: Seq<char>,
    pub url: Seq<char>,
    pub headers: Seq<(Seq<char>, Seq<char>)>,
    pub params: Seq<(Seq<char>, Seq<char>)>,
    pub body: Option<JsonVal>,
    pub auth: Option<JsonVal>,
}

impl View for Request {
    type V = RequestV;

    open spec fn view(&self) -> RequestV {
        RequestV {
            id: self.id@,
            name: self.name@,
            description: match self.description {
                Some(d) => Some(d@),
                None => None,
            },
            method: self.method@,
            url: self.url@,
            headers: self.headers.deep_view(),
            params: self.params.deep_view(),
            body: match self.body {
                Some(b) => Some(jv(b)),
                None => None,
            },
            auth: match self.auth {
                Some(a) => Some(jv(a)),
                None => None,
            },
        }
    }
}

impl Clone for Request {
    /// A copy with the same model.
    fn clone(&self) -> (res: Self)
        ensures
            res@ == self@,
    {
        Request {
            id: self.id.clone(),
            name: self.name.clone(),
            description: match &self.description {
                Some(d) => Some(d.clone()),
                None => None,
            },
            method: self.method.clone(),
            url: self.url.clone(),
            headers: crate::client::copy_pairs(&self.headers),
            params: crate::client::copy_pairs(&self.params),
            body: match &self.body {
                Some(b) => Some(b.clone()),
                None => None,
            },
            auth: match &self.auth {
                Some(a) => Some(a.clone()),
                None => None,
            },
        }
    }
}

/// A copy of a string list with the same model.
pub fn copy_strings(v: &Vec<String>) -> (r: Vec<String>)
    ensures
        r.deep_view() == v.deep_view(),
{
    let mut out: Vec<String> = Vec::new();
    let mut i: usize = 0;
    while i < v.len()
        invariant
            i <= v@.len(),
            out@.len() == i,
            forall|j: int| 0 <= j < i ==> out@[j]@ == v@[j]@,
        decreases v@.len() - i,
    {
        out.push(v[i].clone());
        i = i + 1;
    }
    assert(out.deep_view() =~= v.deep_view());
    out
}

/// A folder inside a collection, naming its requests and sub-folders by
/// identifier.
#[derive(Debug)]
pub struct Folder {
    pub id: String,
    pub name: String,
    pub description: Option<String>,
    pub requests: Vec<String>,
    pub folders: Vec<String>,
}

/// The model of a folder.
pub struct FolderV {
    pub id: Seq<char>,
    pub name: Seq<char>,
    pub description: Option<Seq<char>>,
    pub requests: Seq<Seq<char>>,
    pub folders: Seq<Seq<char>>,
}

impl View for Folder {
    type V = FolderV;

    open spec fn view(&self) -> FolderV {
        FolderV {
            id: self.id@,
            name: self.name@,
            description: match self.description {
                Some(d) => Some(d@),
                None => None,
            },
            requests: self.requests.deep_view(),
            folders: self.folders.deep_view(),
        }
    }
}

impl Clone for Folder {
    /// A copy with the same model.
    fn clone(&self) -> (res: Self)
        ensures
            res@ == self@,
    {
        Folder {
            id: self.id.clone(),
            name: self.name.clone(),
            description: match &self.description {
                Some(d) => Some(d.clone()),
                None => None,
            },
            requests: copy_strings(&self.requests),
            folders: copy_strings(&self.folders),
        }
    }
}

/// A collection of saved requests and folders, with its own variables.
#[derive(Debug)]
pub struct Collection {
    pub id: String,
    pub name: String,
    pub description: Option<String>,
    pub requests: Vec<String>,
    pub folders: Vec<String>,
    pub variables: Vec<(String, String)>,
}

/// The model of a collection.
pub struct CollectionV {
    pub id: Seq<char>,
    pub name: Seq<char>,
    pub description: Option<Seq<char>>,
    pub requests: Seq<Seq<char>>,
    pub folders: Seq<Seq<char>>,
    pub variables: Seq<(Seq<char>, Seq<char>)>,
}

impl View for Collection {
    type V = CollectionV;

    open spec fn view(&self) -> CollectionV {
        CollectionV {
            id: self.id@,
            name: self.name@,
            description: match self.description {
                Some(d) => Some(d@),
                None => None,
            },
            requests: self.requests.deep_view(),
            folders: self.folders.deep_view(),
            variables: self.variables.deep_view(),
        }
    }
}

impl Clone for Collection {
    /// A copy with the same model.
    fn clone(&self) -> (res: Self)
        ensures
            res@ == self@,
    {
        Collection {
            id: self.id.clone(),
            name: self.name.clone(),
            description: match &self.description {
                Some(d) => Some(d.clone()),
                None => None,
            },
            requests: copy_strings(&self.requests),
            folders: copy_strings(&self.folders),
            variables: crate::client::copy_pairs(&self.variables),
        }
    }
}

/// The index of the first collection with this identifier, or a negative
/// answer.
pub open spec fn spec_col_index(cs: Seq<CollectionV>, id: Seq<char>) -> int
    decreases cs.len(),
{
    if cs.len() == 0 {
        -1
    } else if cs[0].id == id {
        0
    } else {
        let r = spec_col_index(cs.drop_first(), id);
        if r < 0 {
            -1
        } else {
            r + 1
        }
    }
}

/// The first collection with this identifier.
pub open spec fn spec_col_get(cs: Seq<CollectionV>, id: Seq<char>) -> Option<CollectionV> {
    let i = spec_col_index(cs, id);
    if 0 <= i < cs.len() {
        Some(cs[i])
    } else {
        None
    }
}

/// A first match at `i` makes the index `i`.
proof fn lemma_col_index_of_first_match(cs: Seq<CollectionV>, id: Seq<char>, i: int)
    requires
        0 <= i < cs.len(),
        cs[i].id == id,
        forall|j: int| 0 <= j < i ==> cs[j].id != id,
    ensures
        spec_col_index(cs, id) == i,
    decreases i,
{
    if i > 0 {
        assert(forall|j: int| 1 <= j < cs.len() ==> cs[j] == cs.drop_first()[j - 1]);
        lemma_col_index_of_first_match(cs.drop_first(), id, i - 1);
    }
}

/// No match makes the index negative.
proof fn lemma_col_index_no_match(cs: Seq<CollectionV>, id: Seq<char>)
    requires
        forall|j: int| 0 <= j < cs.len() ==> cs[j].id != id,
    ensures
        spec_col_index(cs, id) < 0,
    decreases cs.len(),
{
    if cs.len() > 0 {
        assert(forall|j: int| 1 <= j < cs.len() ==> cs[j] == cs.drop_first()[j - 1]);
        lemma_col_index_no_match(cs.drop_first(), id);
    }
}

/// Removing an identifier from an identifier list keeps the others in order.
pub open spec fn spec_id_remove(ids: Seq<Seq<char>>, id: Seq<char>) -> Seq<Seq<char>>
    decreases ids.len(),
{
    if ids.len() == 0 {
        Seq::empty()
    } else if ids[0] == id {
        spec_id_remove(ids.drop_first(), id)
    } else {
        seq![ids[0]] + spec_id_remove(ids.drop_first(), id)
    }
}

/// `x` occurs somewhere in `a`.
pub open spec fn in_seq<T>(x: T, a: Seq<T>) -> bool {
    exists|k: int| 0 <= k < a.len() && a[k] == x
}

/// Every entry of `b` already stood in `a`: nothing was added, though
/// entries may have been dropped or reordered.
pub open spec fn within<T>(b: Seq<T>, a: Seq<T>) -> bool {
    forall|j: int| 0 <= j < b.len() ==> in_seq(#[trigger] b[j], a)
}

/// The store: collections, saved requests and folders, each keyed by its
/// identifier field.
#[derive(Debug)]
pub struct CollectionStore {
    pub collections: Vec<Collection>,
    pub requests: Vec<Request>,
    pub folders: Vec<Folder>,
}

impl CollectionStore {
    /// The models of the stored collections, in order.
    pub open spec fn cols(&self) -> Seq<CollectionV> {
        Seq::new(self.collections@.len(), |i: int| self.collections@[i]@)
    }

    /// The models of the stored requests, in order.
    pub open spec fn reqs(&self) -> Seq<RequestV> {
        Seq::new(self.requests@.len(), |i: int| self.requests@[i]@)
    }

    /// The models of the stored folders, in order.
    pub open spec fn flds(&self) -> Seq<FolderV> {
        Seq::new(self.folders@.len(), |i: int| self.folders@[i]@)
    }

    /// An empty store.
    pub fn new() -> (r: Self)
        ensures
            r.cols().len() == 0,
            r.reqs().len() == 0,
            r.flds().len() == 0,
    {
        CollectionStore { collections: Vec::new(), requests: Vec::new(), folders: Vec::new() }
    }

    /// The index of the first collection with this identifier.
    #[verifier::loop_isolation(false)]
    fn find_col(&self, id: &str) -> (r: Option<usize>)
        ensures
            match r {
                Some(i) => spec_col_index(self.cols(), id@) == i as int && i < self.cols().len(),
                None => spec_col_index(self.cols(), id@) < 0,
            },
    {
        let n = self.collections.len();
        let mut i: usize = 0;
        while i < n
            invariant
                i <= n,
                forall|j: int| 0 <= j < i ==> self.cols()[j].id != id@,
            decreases n - i,
        {
            if str_eq(self.collections[i].id.as_str(), id) {
                proof {
                    lemma_col_index_of_first_match(self.cols(), id@, i as int);
                }
                return Some(i);
            }
            i = i + 1;
        }
        proof {
            lemma_col_index_no_match(self.cols(), id@);
        }
        None
    }

    /// A fresh, empty collection with the given name and description,
    /// stored and returned.
    pub fn create_collection(&mut self, name: String, description: Option<String>) -> (r:
        Collection)
        ensures
            r.name == name,
            r.description == description,
            r@.requests.len() == 0,
            r@.folders.len() == 0,
            r@.variables.len() == 0,
            r.id@.len() == 36,
            final(self).cols() == old(self).cols().push(r@),
            final(self).reqs() == old(self).reqs(),
            final(self).flds() == old(self).flds(),
    {
        let id = crate::ident::fresh_id();
        let collection = Collection {
            id,
            name,
            description,
            requests: Vec::new(),
            folders: Vec::new(),
            variables: Vec::new(),
        };
        let stored = collection.clone();
        self.collections.push(stored);
        proof {
            assert(self.cols() =~= old(self).cols().push(collection@));
            assert(self.reqs() =~= old(self).reqs());
            assert(self.flds() =~= old(self).flds());
        }
        collection
    }

    /// The stored collection with this identifier, if any.
    pub fn get_collection<'a>(&'a self, id: &str) -> (r: Option<&'a Collection>)
        ensures
            match r {
                Some(c) => spec_col_get(self.cols(), id@) == Some(c@),
                None => spec_col_get(self.cols(), id@) is None,
            },
    {
        match self.find_col(id) {
            Some(i) => Some(&self.collections[i]),
            None => None,
        }
    }

    /// Copies of all stored collections, in order.
    #[verifier::loop_isolation(false)]
    pub fn list_collections(&self) -> (r: Vec<Collection>)
        ensures
            r@.len() == self.cols().len(),
            forall|i: int| 0 <= i < r@.len() ==> r@[i]@ == self.cols()[i],
    {
        let n = self.collections.len();
        let mut out: Vec<Collection> = Vec::new();
        let mut i: usize = 0;
        while i < n
            invariant
                i <= n,
                out@.len() == i,
                forall|j: int| 0 <= j < i ==> out@[j]@ == self.cols()[j],
            decreases n - i,
        {
            out.push(self.collections[i].clone());
            i = i + 1;
        }
        out
    }

    /// Updates name and description of the collection with this identifier;
    /// yields a copy of the updated collection, or nothing when the
    /// identifier is unknown.
    pub fn update_collection(&mut self, id: &str, name: Option<String>, description: Option<
        String,
    >) -> (r: Option<Collection>)
        ensures
            spec_col_get(old(self).cols(), id@) is None ==> r is None && final(self).cols()
                == old(self).cols() && final(self).reqs() == old(self).reqs() && final(self).flds() == old(self).flds(),
            spec_col_get(old(self).cols(), id@) matches Some(c0) ==> r is Some && {
                let c1 = r->0@;
                let idx = spec_col_index(old(self).cols(), id@);
                &&& c1 == CollectionV {
                    name: match name {
                        Some(n) => n@,
                        None => c0.name,
                    },
                    description: match description {
                        Some(d) => Some(d@),
                        None => c0.description,
                    },
                    ..c0
                }
                &&& final(self).cols() == old(self).cols().update(idx, c1)
                &&& final(self).reqs() == old(self).reqs()
                &&& final(self).flds() == old(self).flds()
            },
    {
        let idx = match self.find_col(id) {
            Some(i) => i,
            None => {
                return None;
            },
        };
        let mut col = self.collections[idx].clone();
        match name {
            Some(n) => {
                col.name = n;
            },
            None => {},
        }
        if description.is_some() {
            col.description = description;
        }
        let copy = col.clone();
        self.collections.set(idx, col);
        proof {
            assert(self.cols() =~= old(self).cols().update(idx as int, copy@));
            assert(self.reqs() =~= old(self).reqs());
            assert(self.flds() =~= old(self).flds());
        }
        Some(copy)
    }

    /// Removes every stored request whose identifier occurs in `ids`.
    #[verifier::loop_isolation(false)]
    fn drop_requests_named(&mut self, ids: &Vec<String>)
        ensures
            final(self).cols() == old(self).cols(),
            final(self).flds() == old(self).flds(),
            within(final(self).reqs(), old(self).reqs()),
            forall|j: int| 0 <= j < final(self).reqs().len() ==> !ids.deep_view().contains(
                #[trigger] final(self).reqs()[j].id,
            ),
    {
        let n = self.requests.len();
        let mut kept: Vec<Request> = Vec::new();
        let mut i: usize = 0;
        while i < n
            invariant
                i <= n,
                n == old(self).requests@.len(),
                *self == *old(self),
                within(
                    Seq::new(kept@.len(), |j: int| kept@[j]@),
                    old(self).reqs(),
                ),
                forall|j: int| 0 <= j < kept@.len() ==> !ids.deep_view().contains(
                    #[trigger] kept@[j]@.id,
                ),
            decreases n - i,
        {
            if !contains_str(ids, self.requests[i].id.as_str()) {
                let ghost before = Seq::new(kept@.len(), |j: int| kept@[j]@);
                kept.push(self.requests[i].clone());
                proof {
                    assert(Seq::new(kept@.len(), |j: int| kept@[j]@) =~= before.push(
                        old(self).reqs()[i as int],
                    ));
                    assert(old(self).reqs()[i as int] == old(self).reqs()[i as int]);
                }
            }
            i = i + 1;
        }
        let ghost keptm = Seq::new(kept@.len(), |j: int| kept@[j]@);
        self.requests = kept;
        proof {
            assert(self.reqs() =~= keptm);
            assert(self.cols() =~= old(self).cols());
            assert(self.flds() =~= old(self).flds());
        }
    }

    /// Removes the folder with this identifier together with its requests
    /// and, recursively, its sub-folders. Nothing is added: the remaining
    /// folders and requests all stood in the store before, and the folder
    /// itself is gone.
    #[verifier::loop_isolation(false)]
    fn remove_folder_recursively(&mut self, folder_id: &str)
        ensures
            final(self).cols() == old(self).cols(),
            within(final(self).reqs(), old(self).reqs()),
            within(final(self).flds(), old(self).flds()),
            final(self).flds().len() <= old(self).flds().len(),
        decreases old(self).folders@.len(),
    {
        let n = self.folders.len();
        let mut at: Option<usize> = None;
        let mut i: usize = 0;
        while i < n
            invariant
                i <= n,
                *self == *old(self),
                at is None,
            decreases n - i,
        {
            if str_eq(self.folders[i].id.as_str(), folder_id) {
                at = Some(i);
                break;
            }
            i = i + 1;
        }
        let idx = match at {
            Some(i) => i,
            None => {
                return ;
            },
        };
        let folder = self.folders.remove(idx);
        proof {
            lemma_remove_within(old(self).flds(), idx as int);
            assert(self.flds() =~= old(self).flds().remove(idx as int));
            assert(self.cols() =~= old(self).cols());
            assert(self.reqs() =~= old(self).reqs());
        }
        self.drop_requests_named(&folder.requests);
        let ghost mid = *self;
        let m = folder.folders.len();
        let mut k: usize = 0;
        while k < m
            invariant
                k <= m,
                m == folder.folders@.len(),
                self.cols() == mid.cols(),
                within(self.reqs(), mid.reqs()),
                within(self.flds(), mid.flds()),
                self.flds().len() <= mid.flds().len(),
            decreases m - k,
        {
            let ghost step = *self;
            self.remove_folder_recursively(folder.folders[k].as_str());
            proof {
                lemma_within_trans(self.reqs(), step.reqs(), mid.reqs());
                lemma_within_trans(self.flds(), step.flds(), mid.flds());
            }
            k = k + 1;
        }
        proof {
            lemma_within_trans(self.reqs(), mid.reqs(), old(self).reqs());
            lemma_within_trans(self.flds(), mid.flds(), old(self).flds());
        }
    }

    /// Removes the collection with this identifier, its requests and its
    /// folders (recursively). Yields whether anything was removed.
    #[verifier::loop_isolation(false)]
    pub fn delete_collection(&mut self, id: &str) -> (r: bool)
        ensures
            spec_col_get(old(self).cols(), id@) is None ==> !r && final(self).cols() == old(self).cols() && final(self).reqs() == old(self).reqs() && final(self).flds() == old(self).flds(),
            spec_col_get(old(self).cols(), id@) is Some ==> r && {
                let c0 = spec_col_get(old(self).cols(), id@)->0;
                &&& final(self).cols() == old(self).cols().remove(
                    spec_col_index(old(self).cols(), id@),
                )
                &&& within(final(self).reqs(), old(self).reqs())
                &&& within(final(self).flds(), old(self).flds())
                &&& forall|j: int| 0 <= j < final(self).reqs().len() ==> !c0.requests.contains(
                    #[trigger] final(self).reqs()[j].id,
                )
            },
    {
        let idx = match self.find_col(id) {
            Some(i) => i,
            None => {
                return false;
            },
        };
        let direct_requests = copy_strings(&self.collections[idx].requests);
        let direct_folders = copy_strings(&self.collections[idx].folders);
        self.drop_requests_named(&direct_requests);
        let ghost mid0 = *self;
        let m = direct_folders.len();
        let mut k: usize = 0;
        while k < m
            invariant
                k <= m,
                self.cols() == mid0.cols(),
                within(self.reqs(), mid0.reqs()),
                within(self.flds(), mid0.flds()),
            decreases m - k,
        {
            let ghost step = *self;
            self.remove_folder_recursively(direct_folders[k].as_str());
            proof {
                lemma_within_trans(self.reqs(), step.reqs(), mid0.reqs());
                lemma_within_trans(self.flds(), step.flds(), mid0.flds());
            }
            k = k + 1;
        }
        let ghost mid1 = *self;
        self.collections.remove(idx);
        proof {
            assert(self.cols() =~= mid1.cols().remove(idx as int));
            assert(self.reqs() =~= mid1.reqs());
            assert(self.flds() =~= mid1.flds());
            lemma_within_trans(self.reqs(), mid0.reqs(), old(self).reqs());
            lemma_within_trans(self.flds(), mid0.flds(), old(self).flds());
            assert forall|j: int| 0 <= j < self.reqs().len() implies !old(self).cols()[
                spec_col_index(old(self).cols(), id@)
            ].requests.contains(#[trigger] self.reqs()[j].id) by {
                assert(in_seq(self.reqs()[j], mid0.reqs()));
                let k = choose|k: int|
                    0 <= k < mid0.reqs().len() && mid0.reqs()[k] == self.reqs()[j];
                assert(!direct_requests.deep_view().contains(mid0.reqs()[k].id));
            }
        }
        true
    }

    /// Stores a request under a collection: the request joins the request
    /// list, its identifier joins the collection's own list, and that
    /// identifier is returned. Nothing happens when the collection is
    /// unknown.
    pub fn add_request(&mut self, collection_id: &str, request: Request) -> (r: Option<String>)
        ensures
            spec_col_get(old(self).cols(), collection_id@) is None ==> r is None && final(self).cols() == old(self).cols() && final(self).reqs() == old(self).reqs() && final(self).flds() == old(self).flds(),
            spec_col_get(old(self).cols(), collection_id@) matches Some(c0) ==> r is Some && {
                let idx = spec_col_index(old(self).cols(), collection_id@);
                &&& r->0@ == request@.id
                &&& final(self).reqs() == old(self).reqs().push(request@)
                &&& final(self).cols() == old(self).cols().update(
                    idx,
                    CollectionV { requests: c0.requests.push(request@.id), ..c0 },
                )
                &&& final(self).flds() == old(self).flds()
            },
    {
        let idx = match self.find_col(collection_id) {
            Some(i) => i,
            None => {
                return None;
            },
        };
        let request_id = request.id.clone();
        let ghost rv = request@;
        self.requests.push(request);
        let mut col = self.collections[idx].clone();
        col.requests.push(request_id.clone());
        let ghost cv = col@;
        self.collections.set(idx, col);
        proof {
            assert(self.reqs() =~= old(self).reqs().push(rv));
            assert(cv.requests =~= old(self).cols()[idx as int].requests.push(rv.id));
            assert(cv =~= CollectionV {
                requests: old(self).cols()[idx as int].requests.push(rv.id),
                ..old(self).cols()[idx as int]
            });
            assert(self.cols() =~= old(self).cols().update(idx as int, cv));
            assert(self.flds() =~= old(self).flds());
        }
        Some(request_id)
    }

    /// Removes a request from a collection: the identifier leaves the
    /// collection's list and every stored request under it is dropped.
    /// Yields whether the collection was found.
    pub fn remove_request(&mut self, collection_id: &str, request_id: &str) -> (r: bool)
        ensures
            spec_col_get(old(self).cols(), collection_id@) is None ==> !r && final(self).cols()
                == old(self).cols() && final(self).reqs() == old(self).reqs() && final(self).flds() == old(self).flds(),
            spec_col_get(old(self).cols(), collection_id@) matches Some(c0) ==> r && {
                let idx = spec_col_index(old(self).cols(), collection_id@);
                &&& final(self).cols() == old(self).cols().update(
                    idx,
                    CollectionV {
                        requests: spec_id_remove(c0.requests, request_id@),
                        ..c0
                    },
                )
                &&& within(final(self).reqs(), old(self).reqs())
                &&& (forall|j: int| 0 <= j < final(self).reqs().len() ==> #[trigger] final(self).reqs()[j].id != request_id@)
                &&& final(self).flds() == old(self).flds()
            },
    {
        let idx = match self.find_col(collection_id) {
            Some(i) => i,
            None => {
                return false;
            },
        };
        let mut col = self.collections[idx].clone();
        let filtered = remove_id(&col.requests, request_id);
        col.requests = filtered;
        let ghost cv = col@;
        self.collections.set(idx, col);
        proof {
            assert(cv =~= CollectionV {
                requests: spec_id_remove(old(self).cols()[idx as int].requests, request_id@),
                ..old(self).cols()[idx as int]
            });
            assert(self.cols() =~= old(self).cols().update(idx as int, cv));
        }
        proof {
            assert(self.reqs() =~= old(self).reqs());
            assert(self.flds() =~= old(self).flds());
        }
        let mut one = Vec::new();
        one.push(String::from_str(request_id));
        proof {
            assert(one.deep_view() =~= seq![request_id@]);
        }
        self.drop_requests_named(&one);
        proof {
            assert(seq![request_id@][0] == request_id@);
            assert(seq![request_id@].contains(request_id@));
        }
        true
    }
}

/// Whether a string list holds this exact string.
#[verifier::loop_isolation(false)]
fn contains_str(ids: &Vec<String>, s: &str) -> (r: bool)
    ensures
        r == ids.deep_view().contains(s@),
{
    let n = ids.len();
    let mut i: usize = 0;
    while i < n
        invariant
            i <= n,
            forall|j: int| 0 <= j < i ==> ids.deep_view()[j] != s@,
        decreases n - i,
    {
        if str_eq(ids[i].as_str(), s) {
            assert(ids.deep_view()[i as int] == s@);
            return true;
        }
        i = i + 1;
    }
    assert(forall|j: int| 0 <= j < ids.deep_view().len() ==> ids.deep_view()[j] != s@);
    false
}

/// The list without any occurrence of this identifier.
#[verifier::loop_isolation(false)]
fn remove_id(ids: &Vec<String>, id: &str) -> (r: Vec<String>)
    ensures
        r.deep_view() == spec_id_remove(ids.deep_view(), id@),
{
    let ghost dv = ids.deep_view();
    let n = ids.len();
    let mut out: Vec<String> = Vec::new();
    let mut i: usize = 0;
    proof {
        assert(dv.skip(0) =~= dv);
    }
    while i < n
        invariant
            i <= n,
            n == dv.len(),
            spec_id_remove(dv, id@) == out.deep_view() + spec_id_remove(
                dv.skip(i as int),
                id@,
            ),
        decreases n - i,
    {
        let ghost before = out.deep_view();
        if !str_eq(ids[i].as_str(), id) {
            out.push(ids[i].clone());
            proof {
                assert(out.deep_view() =~= before.push(dv[i as int]));
            }
        }
        proof {
            assert(dv.skip(i as int).drop_first() =~= dv.skip(i + 1));
            assert(out.deep_view() + spec_id_remove(dv.skip(i + 1), id@) =~= spec_id_remove(
                dv,
                id@,
            ));
        }
        i = i + 1;
    }
    proof {
        assert(dv.skip(n as int) =~= Seq::<Seq<char>>::empty());
        assert(out.deep_view() =~= spec_id_remove(dv, id@));
    }
    out
}

/// Removing one entry keeps every remaining one an original.
proof fn lemma_remove_within<T>(a: Seq<T>, i: int)
    requires
        0 <= i < a.len(),
    ensures
        within(a.remove(i), a),
{
    assert forall|j: int| 0 <= j < a.remove(i).len() implies in_seq(
        #[trigger] a.remove(i)[j],
        a,
    ) by {
        if j < i {
            assert(a[j] == a.remove(i)[j]);
        } else {
            assert(a[j + 1] == a.remove(i)[j]);
        }
    }
}

/// Containment is transitive.
proof fn lemma_within_trans<T>(c: Seq<T>, b: Seq<T>, a: Seq<T>)
    requires
        within(c, b),
        within(b, a),
    ensures
        within(c, a),
{
    assert forall|j: int| 0 <= j < c.len() implies in_seq(#[trigger] c[j], a) by {
        let k = choose|k: int| 0 <= k < b.len() && b[k] == c[j];
        assert(in_seq(b[k], a));
    }
}

} // verus!
