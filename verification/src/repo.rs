//! The customer repository: a model of the "customer" collection and its
//! five operations — paginated list, lookup by identifier, create, update
//! and delete. Update and delete locate and mutate in one step, so a caller
//! observes either the old or the new document, never a torn state.

use crate::customer::{doc_wf, to_customer, transport, Customer, CustomerDocument, CustomerInput,
    DocView};
use crate::oid::{fresh_oid, hex_text, Oid};
use crate::time::{now_millis, time_in_range, TIME_MAX_MILLIS};
use crate::RepoError;
use vstd::prelude::*;

verus! {

/// No identifier occurs twice: the storage engine assigns each document
/// exactly one identifier and never reassigns it.
pub open spec fn unique_ids(s: Seq<DocView>) -> bool {
    forall|i: int, j: int| 0 <= i < j < s.len() ==> s[i].id != s[j].id
}

pub open spec fn docs_wf(s: Seq<DocView>) -> bool {
    forall|i: int| 0 <= i < s.len() ==> doc_wf(#[trigger] s[i])
}

/// Some document carries the identifier.
pub open spec fn contains_id(s: Seq<DocView>, id: int) -> bool {
    exists|i: int| 0 <= i < s.len() && s[i].id == id
}

/// The position of the document carrying the identifier; meaningful when
/// `contains_id` holds and the identifiers are unique.
pub open spec fn id_index(s: Seq<DocView>, id: int) -> int {
    choose|i: int| 0 <= i < s.len() && s[i].id == id
}

/// The window a listing returns: skip `(page-1)*limit` documents in storage
/// order, then up to `limit` of them.
pub open spec fn page_slice(s: Seq<DocView>, limit: int, page: int) -> Seq<DocView>
    recommends
        limit >= 1,
        page >= 1,
{
    let to_skip = (page - 1) * limit;
    if to_skip >= s.len() {
        Seq::<DocView>::empty()
    } else if to_skip + limit <= s.len() {
        s.subrange(to_skip, to_skip + limit)
    } else {
        s.subrange(to_skip, s.len() as int)
    }
}

/// The collection of customer documents, in storage order.
pub struct CustomerStore {
    docs: Vec<CustomerDocument>,
}

impl View for CustomerStore {
    type V = Seq<DocView>;

    closed spec fn view(&self) -> Seq<DocView> {
        self.docs@.map_values(|d: CustomerDocument| d@)
    }
}

impl CustomerStore {
    /// Every store handed out by this module satisfies this: identifiers
    /// are unique and every document is well formed.
    pub open spec fn inv(&self) -> bool {
        unique_ids(self@) && docs_wf(self@)
    }

    /// An empty collection.
    pub fn new() -> (s: CustomerStore)
        ensures
            s@ == Seq::<DocView>::empty(),
            s.inv(),
    {
        let s = CustomerStore { docs: Vec::new() };
        proof {
            assert(s@ =~= Seq::<DocView>::empty());
        }
        s
    }

    /// How many documents the collection holds.
    pub fn len(&self) -> (n: usize)
        ensures
            n == self@.len(),
    {
        self.docs.len()
    }
}

/// The first position holding the identifier, scanning in storage order.
fn index_of_id(docs: &Vec<CustomerDocument>, oid: &Oid) -> (r: Option<usize>)
    ensures
        match r {
            Some(i) => i < docs@.len() && docs@[i as int]@.id == oid@ && forall|k: int|
                0 <= k < i ==> docs@[k]@.id != oid@,
            None => forall|k: int| 0 <= k < docs@.len() ==> docs@[k]@.id != oid@,
        },
{
    let n = docs.len();
    let mut i: usize = 0;
    while i < n
        invariant
            n == docs@.len(),
            i <= n,
            forall|k: int| 0 <= k < i ==> docs@[k]@.id != oid@,
        decreases n - i,
    {
        if docs[i].id.value == oid.value {
            return Some(i);
        }
        i += 1;
    }
    None
}

/// A found position is the one `id_index` names, once identifiers are unique.
proof fn lemma_found_index(s: Seq<DocView>, id: int, i: int)
    requires
        unique_ids(s),
        0 <= i < s.len(),
        s[i].id == id,
    ensures
        contains_id(s, id),
        id_index(s, id) == i,
{
    assert(contains_id(s, id));
    let j = id_index(s, id);
    if j != i {
        assert(s[i].id != s[j].id);
    }
}

/// Appending a document with a fresh identifier keeps the store invariant.
proof fn lemma_push_fresh_preserves_inv(s: Seq<DocView>, d: DocView)
    requires
        unique_ids(s),
        docs_wf(s),
        !contains_id(s, d.id),
        doc_wf(d),
    ensures
        unique_ids(s.push(d)),
        docs_wf(s.push(d)),
{
    let t = s.push(d);
    assert forall|i: int, j: int| 0 <= i < j < t.len() implies t[i].id != t[j].id by {
        if j < s.len() {
            assert(s[i].id != s[j].id);
        } else {
            assert(t[j] == d);
            assert(t[i] == s[i]);
            assert(!(0 <= i < s.len() && s[i].id == d.id));
        }
    }
    assert forall|i: int| 0 <= i < t.len() implies doc_wf(#[trigger] t[i]) by {
        if i < s.len() {
            assert(doc_wf(s[i]));
        }
    }
}

/// Overwriting a document in place, keeping its identifier, keeps the
/// store invariant.
proof fn lemma_update_preserves_inv(s: Seq<DocView>, i: int, d: DocView)
    requires
        unique_ids(s),
        docs_wf(s),
        0 <= i < s.len(),
        d.id == s[i].id,
        doc_wf(d),
    ensures
        unique_ids(s.update(i, d)),
        docs_wf(s.update(i, d)),
{
    let t = s.update(i, d);
    assert forall|p: int, q: int| 0 <= p < q < t.len() implies t[p].id != t[q].id by {
        assert(s[p].id != s[q].id);
    }
    assert forall|p: int| 0 <= p < t.len() implies doc_wf(#[trigger] t[p]) by {
        assert(doc_wf(s[p]));
    }
}

/// Removing a document keeps the store invariant, and its identifier is
/// gone afterwards.
pub(crate) proof fn lemma_remove_preserves_inv(s: Seq<DocView>, i: int)
    requires
        unique_ids(s),
        docs_wf(s),
        0 <= i < s.len(),
    ensures
        unique_ids(s.remove(i)),
        docs_wf(s.remove(i)),
        !contains_id(s.remove(i), s[i].id),
{
    let t = s.remove(i);
    s.remove_ensures(i);
    assert forall|p: int, q: int| 0 <= p < q < t.len() implies t[p].id != t[q].id by {
        let p0: int = if p < i { p } else { p + 1 };
        let q0: int = if q < i { q } else { q + 1 };
        assert(t[p] == s[p0]);
        assert(t[q] == s[q0]);
        assert(s[p0].id != s[q0].id);
    }
    assert forall|p: int| 0 <= p < t.len() implies doc_wf(#[trigger] t[p]) by {
        let p0: int = if p < i { p } else { p + 1 };
        assert(t[p] == s[p0]);
        assert(doc_wf(s[p0]));
    }
    assert forall|p: int| 0 <= p < t.len() implies t[p].id != s[i].id by {
        let p0: int = if p < i { p } else { p + 1 };
        assert(t[p] == s[p0]);
        if p0 != i {
            if p0 < i {
                assert(s[p0].id != s[i].id);
            } else {
                assert(s[i].id != s[p0].id);
            }
        }
    }
}

/// Paginated listing: documents `(page-1)*limit` through
/// `(page-1)*limit + limit - 1` in storage order, fewer at the end of the
/// collection, none past it. A limit or page below one is rejected.
pub fn find_customer(store: &CustomerStore, limit: i64, page: i64) -> (r: Result<
    Vec<Customer>,
    RepoError,
>)
    requires
        store.inv(),
    ensures
        match r {
            Ok(cs) => limit >= 1 && page >= 1 && cs@.len() <= limit && cs@.len() == page_slice(
                store@,
                limit as int,
                page as int,
            ).len() && (forall|k: int|
                0 <= k < cs@.len() ==> (#[trigger] cs@[k])@ == transport(
                    page_slice(store@, limit as int, page as int)[k],
                )) && cs@.map_values(|c: Customer| c@) == page_slice(
                store@,
                limit as int,
                page as int,
            ).map_values(|d: DocView| transport(d)),
            Err(e) => e == RepoError::InvalidPagination && (limit < 1 || page < 1),
        },
{
    if limit < 1 || page < 1 {
        return Err(RepoError::InvalidPagination);
    }
    let ghost skip_spec: int = (page - 1) * limit;
    proof {
        assert(((page - 1) as u128 as int) * (limit as u128 as int) == skip_spec
            && 0 <= skip_spec <= 0x8000000000000000 * 0x8000000000000000) by (nonlinear_arith)
            requires
                1 <= page < 0x8000000000000000,
                1 <= limit < 0x8000000000000000,
                skip_spec == (page - 1) * limit,
        ;
    }
    let to_skip: u128 = ((page - 1) as u128) * (limit as u128);
    let n = store.docs.len();
    let mut out: Vec<Customer> = Vec::new();
    if to_skip >= n as u128 {
        proof {
            assert(page_slice(store@, limit as int, page as int) =~= Seq::<DocView>::empty());
            assert(out@.map_values(|c: Customer| c@) =~= page_slice(
                store@,
                limit as int,
                page as int,
            ).map_values(|d: DocView| transport(d)));
        }
        return Ok(out);
    }
    let start: usize = to_skip as usize;
    let remaining: usize = n - start;
    let take: usize = if (limit as u128) < (remaining as u128) {
        limit as usize
    } else {
        remaining
    };
    let end: usize = start + take;
    let mut i: usize = start;
    while i < end
        invariant
            store.inv(),
            n == store@.len(),
            n == store.docs@.len(),
            start <= i <= end,
            end <= n,
            end - start == take,
            take <= limit,
            limit >= 1,
            out@.len() == i - start,
            forall|k: int| 0 <= k < out@.len() ==> out@[k]@ == transport(store@[start + k]),
        decreases end - i,
    {
        proof {
            assert(doc_wf(store@[i as int]));
            assert(store@[i as int] == store.docs@[i as int]@);
        }
        let c = to_customer(&store.docs[i]);
        out.push(c);
        i += 1;
    }
    proof {
        let ps = page_slice(store@, limit as int, page as int);
        assert(ps.len() == take);
        assert(forall|k: int| 0 <= k < take ==> ps[k] == store@[start + k]);
        assert(out@.map_values(|c: Customer| c@) =~= ps.map_values(|d: DocView| transport(d)));
    }
    Ok(out)
}

/// Point lookup. `None` is the explicit "not found" result, never an error.
pub fn find_customer_by_id(store: &CustomerStore, oid: &Oid) -> (r: Option<Customer>)
    requires
        store.inv(),
        oid.wf(),
    ensures
        match r {
            Some(c) => contains_id(store@, oid@) && c@ == transport(
                store@[id_index(store@, oid@)],
            ) && c@.id.len() == 24 && c@.created_at.len() > 0,
            None => !contains_id(store@, oid@),
        },
{
    match index_of_id(&store.docs, oid) {
        Some(i) => {
            proof {
                lemma_found_index(store@, oid@, i as int);
                assert(doc_wf(store@[i as int]));
            }
            Some(to_customer(&store.docs[i]))
        }
        None => {
            proof {
                assert(!contains_id(store@, oid@));
            }
            None
        }
    }
}

/// Insert a document with the given identifier and stamp. Rejected only
/// when the identifier is already present, as the storage engine's unique
/// index would reject it.
pub fn insert_customer_doc(
    store: &mut CustomerStore,
    id: Oid,
    name: &str,
    created_at: i64,
) -> (r: Result<String, RepoError>)
    requires
        old(store).inv(),
        id.wf(),
        time_in_range(created_at as int),
    ensures
        final(store).inv(),
        match r {
            Ok(s) => !contains_id(old(store)@, id@) && final(store)@ == old(store)@.push(
                DocView { id: id@, name: name@, created_at: created_at as int },
            ) && s@ == hex_text(id@, 24) && s@.len() == 24,
            Err(e) => e == RepoError::DuplicateId && contains_id(old(store)@, id@) && *final(store)
                == *old(store),
        },
{
    match index_of_id(&store.docs, &id) {
        Some(i) => {
            proof {
                assert(store@[i as int].id == id@);
                assert(contains_id(store@, id@));
            }
            Err(RepoError::DuplicateId)
        }
        None => {
            let hex = id.to_hex();
            let doc = CustomerDocument { id, name: name.to_owned(), created_at };
            proof {
                assert(!contains_id(store@, id@));
                lemma_push_fresh_preserves_inv(store@, doc@);
            }
            store.docs.push(doc);
            proof {
                assert(final(store)@ =~= old(store)@.push(
                    DocView { id: id@, name: name@, created_at: created_at as int },
                ));
            }
            Ok(hex)
        }
    }
}

/// Create: stamp the current wall-clock time, insert a document under a
/// driver-generated identifier, and return that identifier's text. Each
/// successful call appends exactly one document whose identifier was not
/// present before.
pub fn insert_customer(store: &mut CustomerStore, input: &CustomerInput) -> (r: Result<
    String,
    RepoError,
>)
    requires
        old(store).inv(),
    ensures
        final(store).inv(),
        match r {
            Ok(s) => final(store)@.len() == old(store)@.len() + 1 && final(store)@ == old(
                store,
            )@.push(final(store)@.last()) && final(store)@.last().name == input.name@ && doc_wf(
                final(store)@.last(),
            ) && final(store)@.last().created_at >= 0 && !contains_id(
                old(store)@,
                final(store)@.last().id,
            ) && s@ == hex_text(final(store)@.last().id, 24) && s@.len() == 24,
            // Failure needs a drawn identifier that collides with a stored
            // one: an empty collection is always inserted into.
            Err(e) => e == RepoError::DuplicateId && *final(store) == *old(store) && old(
                store,
            )@.len() > 0,
        },
{
    let id = fresh_oid();
    let raw = now_millis();
    let stamp: i64 = if raw > TIME_MAX_MILLIS {
        TIME_MAX_MILLIS
    } else {
        raw
    };
    insert_customer_doc(store, id, input.name.as_str(), stamp)
}

/// Overwrite the document's name and re-stamp its creation field with the
/// given stamp, in one locate-and-mutate step, returning the post-update
/// document. `None` when no document carries the identifier; the
/// collection is then unchanged.
pub fn update_customer_doc(
    store: &mut CustomerStore,
    oid: &Oid,
    name: &str,
    created_at: i64,
) -> (r: Option<Customer>)
    requires
        old(store).inv(),
        oid.wf(),
        time_in_range(created_at as int),
    ensures
        final(store).inv(),
        match r {
            Some(c) => contains_id(old(store)@, oid@) && final(store)@ == old(store)@.update(
                id_index(old(store)@, oid@),
                DocView { id: oid@, name: name@, created_at: created_at as int },
            ) && c@ == transport(DocView { id: oid@, name: name@, created_at: created_at as int })
                && c@.id.len() == 24 && c@.created_at.len() > 0,
            None => !contains_id(old(store)@, oid@) && *final(store) == *old(store),
        },
{
    match index_of_id(&store.docs, oid) {
        Some(i) => {
            proof {
                lemma_found_index(store@, oid@, i as int);
            }
            let doc = CustomerDocument { id: *oid, name: name.to_owned(), created_at };
            let c = to_customer(&doc);
            proof {
                lemma_update_preserves_inv(store@, i as int, doc@);
            }
            store.docs[i] = doc;
            proof {
                assert(final(store)@ =~= old(store)@.update(
                    i as int,
                    DocView { id: oid@, name: name@, created_at: created_at as int },
                ));
            }
            Some(c)
        }
        None => {
            proof {
                assert(!contains_id(store@, oid@));
            }
            None
        }
    }
}

/// Update: overwrite the name and re-stamp the creation field with the
/// current wall-clock time (this collection overwrites the creation stamp
/// on update rather than tracking a separate modification time),
/// returning the post-update document.
pub fn update_customer_by_id(store: &mut CustomerStore, oid: &Oid, input: &CustomerInput) -> (r:
    Option<Customer>)
    requires
        old(store).inv(),
        oid.wf(),
    ensures
        final(store).inv(),
        match r {
            Some(c) => contains_id(old(store)@, oid@) && {
                let i = id_index(old(store)@, oid@);
                &&& final(store)@ == old(store)@.update(i, final(store)@[i])
                &&& final(store)@.len() == old(store)@.len()
                &&& final(store)@[i].id == oid@
                &&& final(store)@[i].name == input.name@
                &&& doc_wf(final(store)@[i])
                &&& final(store)@[i].created_at >= 0
                &&& c@ == transport(final(store)@[i])
                &&& c@.name == input.name@
                &&& c@.id.len() == 24
                &&& c@.created_at.len() > 0
            },
            None => !contains_id(old(store)@, oid@) && *final(store) == *old(store),
        },
{
    let raw = now_millis();
    let stamp: i64 = if raw > TIME_MAX_MILLIS {
        TIME_MAX_MILLIS
    } else {
        raw
    };
    update_customer_doc(store, oid, input.name.as_str(), stamp)
}

/// Delete: locate and remove the document in one step, returning its last
/// state. `None` when no document carries the identifier; the collection
/// is then unchanged, so a second delete of the same identifier reports
/// "not found" rather than failing.
pub fn delete_customer_by_id(store: &mut CustomerStore, oid: &Oid) -> (r: Option<Customer>)
    requires
        old(store).inv(),
        oid.wf(),
    ensures
        final(store).inv(),
        match r {
            Some(c) => contains_id(old(store)@, oid@) && final(store)@ == old(store)@.remove(
                id_index(old(store)@, oid@),
            ) && c@ == transport(old(store)@[id_index(old(store)@, oid@)]) && !contains_id(
                final(store)@,
                oid@,
            ) && c@.id.len() == 24 && c@.created_at.len() > 0,
            None => !contains_id(old(store)@, oid@) && *final(store) == *old(store),
        },
{
    match index_of_id(&store.docs, oid) {
        Some(i) => {
            proof {
                lemma_found_index(store@, oid@, i as int);
                assert(doc_wf(store@[i as int]));
                lemma_remove_preserves_inv(store@, i as int);
            }
            let doc = store.docs.remove(i);
            let c = to_customer(&doc);
            proof {
                assert(final(store)@ =~= old(store)@.remove(i as int));
            }
            Some(c)
        }
        None => {
            proof {
                assert(!contains_id(store@, oid@));
            }
            None
        }
    }
}

/// The number of documents a listing skips: `(page-1)*limit`, for handing
/// to a storage driver. Rejected when the inputs are not positive or the
/// count does not fit the driver's word.
pub fn page_skip(limit: i64, page: i64) -> (r: Result<u64, RepoError>)
    ensures
        match r {
            Ok(k) => limit >= 1 && page >= 1 && k as int == (page - 1) * limit,
            Err(e) => e == RepoError::InvalidPagination && !(limit >= 1 && page >= 1 && (page - 1)
                * limit <= u64::MAX),
        },
{
    if limit < 1 || page < 1 {
        return Err(RepoError::InvalidPagination);
    }
    proof {
        assert(((page - 1) as u128 as int) * (limit as u128 as int) == (page - 1) * limit && 0 <= (
        page - 1) * limit <= 0x8000000000000000 * 0x8000000000000000) by (nonlinear_arith)
            requires
                1 <= page < 0x8000000000000000,
                1 <= limit < 0x8000000000000000,
        ;
    }
    let wide: u128 = ((page - 1) as u128) * (limit as u128);
    if wide > u64::MAX as u128 {
        return Err(RepoError::InvalidPagination);
    }
    Ok(wide as u64)
}

} // verus!
