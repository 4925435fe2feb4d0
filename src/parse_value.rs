//! Reading typed values out of a tree, with a default for whatever is missing.
use vstd::prelude::*;

use crate::node::{get_model, text_key, Node, NodeModel};
use crate::numbers::{parse_i64_text, parsed_i64};

verus! {

/// The text of a leaf: an object's text entry, or a scalar itself.
pub open spec fn leaf_model(v: NodeModel) -> Option<Seq<char>> {
    match get_model(v, text_key()) {
        Some(NodeModel::Scalar(t)) => Some(t),
        Some(_) => None,
        None => match v {
            NodeModel::Scalar(s) => Some(s),
            _ => None,
        },
    }
}

/// The text stored under `key` in `node`, in either leaf shape.
pub open spec fn leaf_text(node: NodeModel, key: Seq<char>) -> Option<Seq<char>> {
    match get_model(node, key) {
        Some(v) => leaf_model(v),
        None => None,
    }
}

/// What [`parse_string`] returns.
pub open spec fn string_or(node: NodeModel, key: Seq<char>, default: Seq<char>) -> Seq<char> {
    match leaf_text(node, key) {
        Some(s) => s,
        None => default,
    }
}

/// What [`parse_i64`] returns.
pub open spec fn i64_or(node: NodeModel, key: Seq<char>, default: i64) -> i64 {
    match leaf_text(node, key) {
        Some(s) => match parsed_i64(s) {
            Some(v) => v,
            None => default,
        },
        None => default,
    }
}

/// Where the key is missing, or its text is no base-10 `i64`, [`parse_i64`]
/// gives the caller's default, never a value of its own.
pub proof fn lemma_unreadable_gives_default(node: NodeModel, key: Seq<char>, default: i64)
    requires
        match leaf_text(node, key) {
            Some(s) => parsed_i64(s) is None,
            None => true,
        },
    ensures
        i64_or(node, key, default) == default,
{
}

/// The text of a leaf, in either shape.
fn leaf_str(v: &Node) -> (r: Option<&str>)
    ensures
        match r {
            Some(s) => leaf_model(v.model()) == Some(s@),
            None => leaf_model(v.model()) is None,
        },
{
    proof {
        reveal_strlit("$text");
        assert("$text"@ =~= text_key());
    }
    match v.get("$text") {
        Some(t) => t.as_str(),
        None => v.as_str(),
    }
}

/// The text under `key` in `json`, in either leaf shape, where there is one.
pub fn text_at<'a>(json: &'a Node, key: &str) -> (r: Option<&'a str>)
    ensures
        match r {
            Some(s) => leaf_text(json.model(), key@) == Some(s@),
            None => leaf_text(json.model(), key@) is None,
        },
{
    match json.get(key) {
        Some(v) => leaf_str(v),
        None => None,
    }
}

/// The text under `key` in `json`, where `json` is an object and the value is
/// an object with a `$text` entry; `default` otherwise. A bare text is read as
/// well, for trees whose leaves were stored without the `$text` wrapper.
pub fn parse_string(json: &Node, key: &str, default: &str) -> (r: String)
    ensures
        r@ == string_or(json.model(), key@, default@),
{
    proof {
        reveal_strlit("$text");
        assert("$text"@ =~= text_key());
    }
    match json.get(key) {
        Some(v) => match leaf_str(v) {
            Some(s) => s.to_owned(),
            None => default.to_owned(),
        },
        None => default.to_owned(),
    }
}

/// Whether the text under `key` (or `default` where there is none) is exactly
/// `true_value`.
pub fn parse_bool(json: &Node, key: &str, default: &str, true_value: &str) -> (r: bool)
    ensures
        r == (string_or(json.model(), key@, default@) == true_value@),
{
    let s = parse_string(json, key, default);
    let t = true_value.to_owned();
    s == t
}

/// The base-10 `i64` under `key`; `default` where the key is missing, the value
/// is no leaf, or its text is no `i64`.
pub fn parse_i64(json: &Node, key: &str, default: i64) -> (r: i64)
    ensures
        r == i64_or(json.model(), key@, default),
{
    proof {
        reveal_strlit("$text");
        assert("$text"@ =~= text_key());
    }
    match json.get(key) {
        Some(v) => match leaf_str(v) {
            Some(s) => match parse_i64_text(s) {
                Some(n) => n,
                None => default,
            },
            None => default,
        },
        None => default,
    }
}

} // verus!
