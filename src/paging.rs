//! The pagination block of a listing response.
use vstd::prelude::*;
use vstd::arithmetic::div_mod::{lemma_fundamental_div_mod, lemma_fundamental_div_mod_converse};

use crate::node::{get_model, text_key, Node, NodeModel};
use crate::numbers::{parse_i64_text, parsed_i64};

verus! {

/// The text of the `$text` entry of the object under `key`.
pub open spec fn wrapped_text(paging: NodeModel, key: Seq<char>) -> Option<Seq<char>> {
    match get_model(paging, key) {
        Some(v) => match get_model(v, text_key()) {
            Some(NodeModel::Scalar(t)) => Some(t),
            _ => None,
        },
        None => None,
    }
}

/// The `i64` that the block gives for `key`, or `default`.
pub open spec fn paging_field(paging: Option<NodeModel>, key: Seq<char>, default: i64) -> i64 {
    match paging {
        Some(p) => match wrapped_text(p, key) {
            Some(t) => match parsed_i64(t) {
                Some(v) => v,
                None => default,
            },
            None => default,
        },
        None => default,
    }
}

/// The number of pages that `total` items fill at `size` items a page: the
/// ceiling of `total / size`, or 0 where `size` is not positive.
pub open spec fn page_count(total: int, size: int) -> int {
    if size > 0 {
        (total + size - 1) / size
    } else {
        0
    }
}

pub open spec fn option_model(n: Option<&Node>) -> Option<NodeModel> {
    match n {
        Some(x) => Some(x.model()),
        None => None,
    }
}

/// What [`extract_pagination_info`] returns.
pub open spec fn pagination_of(paging: Option<NodeModel>) -> (i64, i64, i64, i64) {
    let current = paging_field(paging, "CurrentPage"@, 1);
    let size = paging_field(paging, "PageSize"@, 21);
    let total = paging_field(paging, "TotalItems"@, 0);
    (current, size, total, page_count(total as int, size as int) as i64)
}

/// The page count, computed without overflow.
pub fn total_pages(total: i64, size: i64) -> (r: i64)
    ensures
        r == page_count(total as int, size as int),
{
    if size <= 0 {
        return 0;
    }
    if total >= 0 {
        let q = ((total as u128) + (size as u128) - 1) / (size as u128);
        proof {
            let t = total as int;
            let s = size as int;
            lemma_fundamental_div_mod(t + s - 1, s);
            let qq = (t + s - 1) / s;
            let rr = (t + s - 1) % s;
            assert(qq <= t) by (nonlinear_arith)
                requires
                    t + s - 1 == s * qq + rr,
                    0 <= rr < s,
                    t >= 0,
                    s >= 1,
            ;
            assert(qq >= 0) by (nonlinear_arith)
                requires
                    t + s - 1 == s * qq + rr,
                    rr < s,
                    t >= 0,
                    s >= 1,
            ;
        }
        q as i64
    } else {
        let m = (0 - (total as i128)) as u128;
        let q = m / (size as u128);
        proof {
            let t = total as int;
            let s = size as int;
            lemma_fundamental_div_mod(-t, s);
            let qq = (-t) / s;
            let rr = (-t) % s;
            assert(t + s - 1 == (-qq) * s + (s - 1 - rr)) by (nonlinear_arith)
                requires
                    -t == s * qq + rr,
            ;
            lemma_fundamental_div_mod_converse(t + s - 1, s, -qq, s - 1 - rr);
            assert(qq <= -t) by (nonlinear_arith)
                requires
                    -t == s * qq + rr,
                    0 <= rr,
                    s >= 1,
                    -t > 0,
            ;
            assert(qq >= 0) by (nonlinear_arith)
                requires
                    -t == s * qq + rr,
                    rr < s,
                    -t > 0,
                    s >= 1,
            ;
        }
        (0 - (q as i128)) as i64
    }
}

/// The number under `key` in the block: the `$text` of the object there, read
/// as a base-10 `i64`, or `default`.
fn paging_value(paging: &Node, key: &str, default: i64) -> (r: i64)
    ensures
        r == paging_field(Some(paging.model()), key@, default),
{
    proof {
        reveal_strlit("$text");
        assert("$text"@ =~= text_key());
    }
    match paging.get(key) {
        Some(v) => match v.get("$text") {
            Some(t) => match t.as_str() {
                Some(s) => match parse_i64_text(s) {
                    Some(n) => n,
                    None => default,
                },
                None => default,
            },
            None => default,
        },
        None => default,
    }
}

/// Reads `(current_page, page_size, total_items, total_pages)` from a paging
/// block: the first three from the `$text` of `CurrentPage`, `PageSize` and
/// `TotalItems`, with defaults 1, 21 and 0, and the last as the ceiling of
/// `total_items / page_size` (0 where the page size is not positive). Without
/// a block every value is its default.
pub fn extract_pagination_info(paging: Option<&Node>) -> (r: (i64, i64, i64, i64))
    ensures
        r == pagination_of(option_model(paging)),
{
    let (current, size, total) = match paging {
        Some(p) => (
            paging_value(p, "CurrentPage", 1),
            paging_value(p, "PageSize", 21),
            paging_value(p, "TotalItems", 0),
        ),
        None => (1, 21, 0),
    };
    (current, size, total, total_pages(total, size))
}

} // verus!
