//! Laws the repository obeys, stated over the store model and proved once
//! for all collections, identifiers and inputs.

use crate::customer::{transport, DocView};
use crate::oid::{
    hex_text, hex_value, lemma_hex_text_injective, lemma_hex_text_len, lemma_hex_value_of_hex_text,
    oid_in_range,
};
use crate::repo::{contains_id, id_index, lemma_remove_preserves_inv, page_slice, unique_ids};
use vstd::prelude::*;

verus! {

/// A listing page holds at most `limit` documents, and two consecutive
/// pages of the same collection never share an identifier.
pub proof fn lemma_list_pages_disjoint(s: Seq<DocView>, limit: int, page: int)
    requires
        unique_ids(s),
        limit >= 1,
        page >= 1,
    ensures
        page_slice(s, limit, page).len() <= limit,
        forall|i: int, j: int|
            0 <= i < page_slice(s, limit, page).len() && 0 <= j < page_slice(
                s,
                limit,
                page + 1,
            ).len() ==> #[trigger] page_slice(s, limit, page)[i].id != #[trigger] page_slice(
                s,
                limit,
                page + 1,
            )[j].id,
{
    let a = page_slice(s, limit, page);
    let b = page_slice(s, limit, page + 1);
    let skip1 = (page - 1) * limit;
    let skip2 = page * limit;
    assert(skip2 == skip1 + limit && skip1 >= 0) by (nonlinear_arith)
        requires
            limit >= 1,
            page >= 1,
            skip1 == (page - 1) * limit,
            skip2 == page * limit,
    ;
    assert forall|i: int, j: int| 0 <= i < a.len() && 0 <= j < b.len() implies a[i].id != b[j].id by {
        assert(a[i] == s[skip1 + i]);
        assert(b[j] == s[skip2 + j]);
        assert(skip1 + i < skip2 + j < s.len());
    }
}

/// Creating and then looking the returned identifier up finds the new
/// document: it sits at the end of the collection, its transport form
/// carries the name that was stored, its rendered identifier has 24
/// digits, and parsing that rendering yields the identifier again.
pub proof fn lemma_create_then_get(s: Seq<DocView>, d: DocView)
    requires
        unique_ids(s),
        !contains_id(s, d.id),
        oid_in_range(d.id),
    ensures
        contains_id(s.push(d), d.id),
        id_index(s.push(d), d.id) == s.len(),
        transport(s.push(d)[id_index(s.push(d), d.id)]) == transport(d),
        transport(d).name == d.name,
        transport(d).id == hex_text(d.id, 24),
        transport(d).id.len() == 24,
        hex_value(hex_text(d.id, 24)) == d.id,
{
    let t = s.push(d);
    assert(t[s.len() as int] == d);
    assert(contains_id(t, d.id));
    let j = id_index(t, d.id);
    if j != s.len() {
        assert(t[j] == s[j]);
        assert(contains_id(s, d.id));
    }
    lemma_hex_text_len(d.id, 24);
    lemma_hex_value_of_hex_text(d.id, 24);
}

/// Creation is not idempotent: two successful creates yield distinct
/// identifiers — and distinct rendered identifier strings — even for
/// identical input, because the second identifier is fresh for a
/// collection that already holds the first.
pub proof fn lemma_create_ids_distinct(s: Seq<DocView>, d1: DocView, d2: DocView)
    requires
        !contains_id(s, d1.id),
        !contains_id(s.push(d1), d2.id),
        oid_in_range(d1.id),
        oid_in_range(d2.id),
    ensures
        d1.id != d2.id,
        hex_text(d1.id, 24) != hex_text(d2.id, 24),
{
    assert(s.push(d1)[s.len() as int] == d1);
    if d1.id == d2.id {
        assert(contains_id(s.push(d1), d2.id));
    }
    if hex_text(d1.id, 24) == hex_text(d2.id, 24) {
        lemma_hex_text_injective(d1.id, d2.id, 24);
    }
}

/// After a delete removes the document an identifier names, the
/// identifier is absent: a second delete of the same identifier reports
/// "not found".
pub proof fn lemma_delete_then_absent(s: Seq<DocView>, id: int)
    requires
        unique_ids(s),
        crate::repo::docs_wf(s),
        contains_id(s, id),
    ensures
        !contains_id(s.remove(id_index(s, id)), id),
{
    let i = id_index(s, id);
    lemma_remove_preserves_inv(s, i);
}

} // verus!
