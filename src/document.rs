//! What the builder makes of a whole document.
//!
//! A document is modelled as a tree of elements and written out as the event
//! stream a parser reports for it. The laws here relate that stream to the
//! tree the builder returns.
use vstd::prelude::*;

use crate::naming::snake_case;
use crate::node::{
    insert_entry, key_index, lemma_key_index, merge_child, text_key, NodeModel,
};
use crate::xml_parser::{
    attrs_object, close_object, initial_state, run, step, tree_of_tokens, trimmed, BuildState,
    Progress, TokenModel, XmlError,
};

verus! {

/// An element of a document: its name, its attributes in document order, its
/// child elements, and the text between its last child and its end tag.
pub struct Element {
    pub name: Seq<char>,
    pub attrs: Seq<(Seq<char>, Seq<char>)>,
    pub children: Seq<Element>,
    pub text: Seq<char>,
}

/// The events a parser reports for an element.
pub open spec fn element_tokens(e: Element) -> Seq<TokenModel>
    decreases e,
{
    seq![TokenModel::Start(e.name, e.attrs)] + children_tokens(e.children) + seq![
        TokenModel::Text(e.text),
        TokenModel::End(e.name),
    ]
}

/// The events a parser reports for a run of sibling elements.
pub open spec fn children_tokens(cs: Seq<Element>) -> Seq<TokenModel>
    decreases cs,
{
    if cs.len() == 0 {
        Seq::empty()
    } else {
        children_tokens(cs.drop_last()) + element_tokens(cs.last())
    }
}

/// The keys that an element's object receives: its normalized attribute
/// names, then its children's names.
pub open spec fn element_keys(e: Element) -> Seq<Seq<char>> {
    Seq::new(e.attrs.len(), |i: int| snake_case(e.attrs[i].0)) + Seq::new(
        e.children.len(),
        |i: int| e.children[i].name,
    )
}

/// No two attributes or children of any element share a key, and none uses the
/// reserved text key.
pub open spec fn distinct_names(e: Element) -> bool
    decreases e,
{
    &&& element_keys(e).no_duplicates()
    &&& !element_keys(e).contains(text_key())
    &&& all_distinct_names(e.children)
}

pub open spec fn all_distinct_names(cs: Seq<Element>) -> bool
    decreases cs,
{
    cs.len() == 0 || (all_distinct_names(cs.drop_last()) && distinct_names(cs.last()))
}

/// Each attribute under its normalized name, as text, in document order.
pub open spec fn attribute_entries(attrs: Seq<(Seq<char>, Seq<char>)>) -> Seq<
    (Seq<char>, NodeModel),
> {
    Seq::new(attrs.len(), |i: int| (snake_case(attrs[i].0), NodeModel::Scalar(attrs[i].1)))
}

/// The text entry of an element, where its trimmed text is not empty.
pub open spec fn text_entry(text: Seq<char>) -> Seq<(Seq<char>, NodeModel)> {
    if trimmed(text).len() > 0 {
        seq![(text_key(), NodeModel::Scalar(trimmed(text)))]
    } else {
        Seq::empty()
    }
}

/// The object of an element whose names are distinct: its attributes, then
/// its children, then its text, each once.
pub open spec fn expected_object(e: Element) -> Seq<(Seq<char>, NodeModel)>
    decreases e,
{
    attribute_entries(e.attrs) + children_entries(e.children) + text_entry(e.text)
}

pub open spec fn children_entries(cs: Seq<Element>) -> Seq<(Seq<char>, NodeModel)>
    decreases cs,
{
    if cs.len() == 0 {
        Seq::empty()
    } else {
        children_entries(cs.drop_last()).push(
            (cs.last().name, NodeModel::Object(expected_object(cs.last()))),
        )
    }
}

/// Running the builder on two streams one after the other.
pub proof fn lemma_run_concat(st: BuildState, a: Seq<TokenModel>, b: Seq<TokenModel>)
    ensures
        run(st, a + b) == match run(st, a) {
            Progress::Pending(next) => run(next, b),
            Progress::Finished(r) => Progress::Finished(r),
        },
    decreases a.len(),
{
    if a.len() > 0 {
        assert((a + b).drop_first() =~= a.drop_first() + b);
        assert((a + b)[0] == a[0]);
        match step(st, a[0]) {
            Progress::Pending(next) => lemma_run_concat(next, a.drop_first(), b),
            Progress::Finished(_) => {},
        }
    } else {
        assert(a + b =~= b);
    }
}

proof fn lemma_run_one(st: BuildState, t: TokenModel)
    ensures
        run(st, seq![t]) == match step(st, t) {
            Progress::Pending(next) => Progress::Pending(next),
            Progress::Finished(r) => Progress::Finished(r),
        },
{
    assert(seq![t].drop_first() =~= Seq::<TokenModel>::empty());
    assert(seq![t][0] == t);
    match step(st, t) {
        Progress::Pending(next) => {
            assert(run(next, Seq::<TokenModel>::empty()) == Progress::Pending(next));
        },
        Progress::Finished(_) => {},
    }
}

proof fn lemma_attrs_object(attrs: Seq<(Seq<char>, Seq<char>)>)
    requires
        Seq::new(attrs.len(), |i: int| snake_case(attrs[i].0)).no_duplicates(),
    ensures
        attrs_object(attrs) == attribute_entries(attrs),
    decreases attrs.len(),
{
    if attrs.len() > 0 {
        let rest = attrs.drop_last();
        let names = Seq::new(attrs.len(), |i: int| snake_case(attrs[i].0));
        let rest_names = Seq::new(rest.len(), |i: int| snake_case(rest[i].0));
        assert forall|i: int, j: int|
            0 <= i < rest_names.len() && 0 <= j < rest_names.len() && i != j implies rest_names[i]
            != rest_names[j] by {
            assert(names[i] != names[j]);
        }
        lemma_attrs_object(rest);
        let prev = attribute_entries(rest);
        let key = snake_case(attrs.last().0);
        lemma_key_index(prev, key);
        assert forall|i: int| 0 <= i < prev.len() implies prev[i].0 != key by {
            assert(names[i] != names[attrs.len() - 1]);
        }
        assert(insert_entry(prev, key, NodeModel::Scalar(attrs.last().1)) =~= attribute_entries(
            attrs,
        ));
    }
}

/// The keys of the entries `children_entries` makes are the children's names.
proof fn lemma_children_entries(cs: Seq<Element>)
    ensures
        children_entries(cs).len() == cs.len(),
        forall|i: int|
            0 <= i < cs.len() ==> (#[trigger] children_entries(cs)[i]).0 == cs[i].name,
    decreases cs.len(),
{
    if cs.len() > 0 {
        lemma_children_entries(cs.drop_last());
    }
}

/// Sibling elements, from a state whose innermost open element has object
/// `obj` and no key among the siblings' names, each add one entry to it.
proof fn lemma_children_run(st: BuildState, cs: Seq<Element>)
    requires
        st.frames.len() >= 1,
        st.text.len() == 0,
        all_distinct_names(cs),
        Seq::new(cs.len(), |i: int| cs[i].name).no_duplicates(),
        forall|i: int, k: int|
            #![trigger st.frames.last().1[k], cs[i]]
            0 <= i < cs.len() && 0 <= k < st.frames.last().1.len() ==> st.frames.last().1[k].0
                != cs[i].name,
    ensures
        run(st, children_tokens(cs)) == Progress::Pending(
            BuildState {
                frames: st.frames.drop_last().push(
                    (st.frames.last().0, st.frames.last().1 + children_entries(cs)),
                ),
                text: Seq::empty(),
            },
        ),
    decreases cs,
{
    let top = st.frames.last();
    if cs.len() == 0 {
        assert(top.1 + children_entries(cs) =~= top.1);
        assert(st.frames.drop_last().push((top.0, top.1)) =~= st.frames);
        assert(children_tokens(cs) =~= Seq::<TokenModel>::empty());
        assert(st.text =~= Seq::<char>::empty());
        assert(run(st, Seq::<TokenModel>::empty()) == Progress::Pending(st));
    } else {
        let rest = cs.drop_last();
        let last = cs.last();
        let names = Seq::new(cs.len(), |i: int| cs[i].name);
        let rest_names = Seq::new(rest.len(), |i: int| rest[i].name);
        assert forall|i: int, j: int|
            0 <= i < rest_names.len() && 0 <= j < rest_names.len() && i != j implies rest_names[i]
            != rest_names[j] by {
            assert(names[i] != names[j]);
        }
        assert forall|i: int, k: int|
            #![trigger top.1[k], rest[i]]
            0 <= i < rest.len() && 0 <= k < top.1.len() implies top.1[k].0 != rest[i].name by {
            assert(cs[i] == rest[i]);
        }
        lemma_children_run(st, rest);
        let mid = BuildState {
            frames: st.frames.drop_last().push((top.0, top.1 + children_entries(rest))),
            text: Seq::empty(),
        };
        lemma_run_concat(st, children_tokens(rest), element_tokens(last));
        lemma_children_entries(rest);
        let obj = top.1 + children_entries(rest);
        lemma_key_index(obj, last.name);
        assert forall|k: int| 0 <= k < obj.len() implies obj[k].0 != last.name by {
            if k < top.1.len() {
                assert(top.1[k].0 != cs[cs.len() - 1].name);
            } else {
                assert(names[k - top.1.len()] != names[cs.len() - 1]);
            }
        }
        assert(mid.frames.last() == (top.0, obj));
        lemma_element_run(mid, last);
        assert(mid.frames.drop_last() =~= st.frames.drop_last());
        assert(obj.push((last.name, NodeModel::Object(expected_object(last)))) =~= top.1
            + children_entries(cs));
    }
}

/// A whole element, from a state with an open element whose object has no key
/// equal to its name, adds one entry under its name to that object.
proof fn lemma_element_run(st: BuildState, e: Element)
    requires
        st.frames.len() >= 1,
        distinct_names(e),
        key_index(st.frames.last().1, e.name) == -1,
    ensures
        run(st, element_tokens(e)) == Progress::Pending(
            BuildState {
                frames: st.frames.drop_last().push(
                    (
                        st.frames.last().0,
                        st.frames.last().1.push((e.name, NodeModel::Object(expected_object(e)))),
                    ),
                ),
                text: Seq::empty(),
            },
        ),
    decreases e,
{
    let top = st.frames.last();
    let opened = lemma_open_and_fill(st, e);
    let inner = attribute_entries(e.attrs) + children_entries(e.children);
    let node = NodeModel::Object(expected_object(e));
    assert(opened.frames.drop_last() =~= st.frames);
    assert(step(opened, TokenModel::End(e.name)) == Progress::Pending(
        BuildState {
            frames: st.frames.drop_last().push((top.0, merge_child(top.1, e.name, node))),
            text: Seq::empty(),
        },
    ));
    lemma_run_one(opened, TokenModel::End(e.name));
    lemma_key_index(top.1, e.name);
}

/// The events of an element up to its end tag: the element is open, with its
/// whole object but for the text entry, and its text in the buffer.
proof fn lemma_open_and_fill(st: BuildState, e: Element) -> (opened: BuildState)
    requires
        distinct_names(e),
    ensures
        opened == (BuildState {
            frames: st.frames.push(
                (e.name, attribute_entries(e.attrs) + children_entries(e.children)),
            ),
            text: e.text,
        }),
        close_object(opened.frames.last().1, opened.text) == expected_object(e),
        run(st, element_tokens(e)) == run(opened, seq![TokenModel::End(e.name)]),
    decreases e, 0int,
{
    let keys = element_keys(e);
    let an = Seq::new(e.attrs.len(), |i: int| snake_case(e.attrs[i].0));
    let cn = Seq::new(e.children.len(), |i: int| e.children[i].name);
    assert(keys =~= an + cn);
    assert forall|i: int, j: int| 0 <= i < an.len() && 0 <= j < an.len() && i != j implies an[i]
        != an[j] by {
        assert(keys[i] == an[i] && keys[j] == an[j]);
    }
    assert forall|i: int, j: int| 0 <= i < cn.len() && 0 <= j < cn.len() && i != j implies cn[i]
        != cn[j] by {
        assert(keys[an.len() + i] == cn[i] && keys[an.len() + j] == cn[j]);
    }
    lemma_attrs_object(e.attrs);
    let attrs = attribute_entries(e.attrs);
    let started = BuildState { frames: st.frames.push((e.name, attrs)), text: Seq::empty() };
    assert(step(st, TokenModel::Start(e.name, e.attrs)) == Progress::Pending(started));
    assert forall|i: int, k: int|
        #![trigger attrs[k], e.children[i]]
        0 <= i < e.children.len() && 0 <= k < attrs.len() implies attrs[k].0
        != e.children[i].name by {
        assert(keys[k] == an[k] && keys[an.len() + i] == cn[i]);
    }
    assert(started.frames.last() == (e.name, attrs));
    lemma_children_run(started, e.children);
    assert(started.frames.drop_last() =~= st.frames);
    let filled = BuildState {
        frames: st.frames.push((e.name, attrs + children_entries(e.children))),
        text: Seq::empty(),
    };
    let opened = BuildState { frames: filled.frames, text: e.text };
    assert(step(filled, TokenModel::Text(e.text)) == Progress::Pending(opened)) by {
        assert(Seq::<char>::empty() + e.text =~= e.text);
    }
    let toks = element_tokens(e);
    let head = seq![TokenModel::Start(e.name, e.attrs)];
    let body = children_tokens(e.children);
    let tail = seq![TokenModel::Text(e.text), TokenModel::End(e.name)];
    assert(toks == head + body + tail);
    lemma_run_concat(st, head + body, tail);
    lemma_run_concat(st, head, body);
    lemma_run_one(st, TokenModel::Start(e.name, e.attrs));
    assert(tail =~= seq![TokenModel::Text(e.text)] + seq![TokenModel::End(e.name)]);
    lemma_run_concat(filled, seq![TokenModel::Text(e.text)], seq![TokenModel::End(e.name)]);
    lemma_run_one(filled, TokenModel::Text(e.text));
    // the text entry goes last, on a key that no attribute or child has
    let inner = attrs + children_entries(e.children);
    lemma_children_entries(e.children);
    lemma_key_index(inner, text_key());
    assert forall|k: int| 0 <= k < inner.len() implies inner[k].0 != text_key() by {
        if k < attrs.len() {
            assert(keys[k] == inner[k].0);
        } else {
            assert(keys[k] == cn[k - attrs.len()]);
        }
    }
    assert(close_object(inner, e.text) =~= expected_object(e));
    opened
}

/// Events that the builder passes over leave its state as it is.
proof fn lemma_run_passed_over(st: BuildState, toks: Seq<TokenModel>)
    requires
        forall|i: int| 0 <= i < toks.len() ==> #[trigger] toks[i] is Other,
    ensures
        run(st, toks) == Progress::Pending(st),
    decreases toks.len(),
{
    if toks.len() > 0 {
        assert(toks[0] is Other);
        let rest = toks.drop_first();
        assert forall|i: int| 0 <= i < rest.len() implies #[trigger] rest[i] is Other by {
            assert(toks[i + 1] is Other);
        }
        lemma_run_passed_over(st, rest);
    }
}

/// Well-formed input with no repeated sibling names keeps every attribute and
/// every text exactly once: the builder's result maps the outermost element's
/// name to [`expected_object`], which holds each attribute under its
/// normalized name, each child's own object under the child's name, and the
/// trimmed text, each once and in document order. Events passed over before
/// the outermost element (the document's start, comments) change nothing,
/// and whatever follows its end tag is not read.
pub proof fn lemma_distinct_names_round_trip(
    leading: Seq<TokenModel>,
    e: Element,
    trailing: Seq<TokenModel>,
)
    requires
        forall|i: int| 0 <= i < leading.len() ==> #[trigger] leading[i] is Other,
        distinct_names(e),
    ensures
        tree_of_tokens(leading + element_tokens(e) + trailing) == Ok::<NodeModel, XmlError>(
            NodeModel::Object(seq![(e.name, NodeModel::Object(expected_object(e)))]),
        ),
{
    let opened = lemma_open_and_fill(initial_state(), e);
    lemma_run_one(opened, TokenModel::End(e.name));
    lemma_run_concat(initial_state(), element_tokens(e), trailing);
    lemma_run_passed_over(initial_state(), leading);
    assert(leading + element_tokens(e) + trailing =~= leading + (element_tokens(e) + trailing));
    lemma_run_concat(initial_state(), leading, element_tokens(e) + trailing);
}

proof fn lemma_step_keeps_depth(st: BuildState, t: TokenModel)
    requires
        st.frames.len() >= 2 || t !is End,
        t !is Malformed,
    ensures
        step(st, t) matches Progress::Pending(next) && next.frames.len() >= st.frames.len() - (
        if t is End {
            1int
        } else {
            0int
        }),
{
}

/// Any prefix of an element's events, from a state with an open element,
/// leaves the builder waiting, with at least as many open elements.
proof fn lemma_element_prefix(st: BuildState, e: Element, k: int)
    requires
        st.frames.len() >= 1,
        0 <= k <= element_tokens(e).len(),
    ensures
        run(st, element_tokens(e).take(k)) matches Progress::Pending(next) && next.frames.len()
            >= st.frames.len(),
    decreases e,
{
    let toks = element_tokens(e);
    let start = TokenModel::Start(e.name, e.attrs);
    let body = children_tokens(e.children);
    let n = body.len() as int;
    assert(toks =~= seq![start] + body + seq![TokenModel::Text(e.text), TokenModel::End(e.name)]);
    if k == 0 {
        assert(toks.take(0) =~= Seq::<TokenModel>::empty());
    } else {
        let started = BuildState { frames: st.frames.push((e.name, attrs_object(e.attrs))), text: Seq::empty() };
        lemma_run_one(st, start);
        if k <= n + 1 {
            assert(toks.take(k) =~= seq![start] + body.take(k - 1));
            lemma_run_concat(st, seq![start], body.take(k - 1));
            lemma_children_prefix(started, e.children, k - 1);
        } else {
            assert(body.take(n) =~= body);
            lemma_children_prefix(started, e.children, n);
            lemma_run_concat(st, seq![start], body);
            let filled = match run(started, body) {
                Progress::Pending(next) => next,
                Progress::Finished(_) => started,
            };
            lemma_step_keeps_depth(filled, TokenModel::Text(e.text));
            lemma_run_one(filled, TokenModel::Text(e.text));
            if k == n + 2 {
                assert(toks.take(k) =~= (seq![start] + body) + seq![TokenModel::Text(e.text)]);
                lemma_run_concat(st, seq![start] + body, seq![TokenModel::Text(e.text)]);
            } else {
                assert(toks.take(k) =~= (seq![start] + body) + seq![
                    TokenModel::Text(e.text),
                    TokenModel::End(e.name),
                ]);
                let texted = BuildState { frames: filled.frames, text: filled.text + e.text };
                lemma_run_concat(
                    st,
                    seq![start] + body,
                    seq![TokenModel::Text(e.text), TokenModel::End(e.name)],
                );
                assert(seq![TokenModel::Text(e.text), TokenModel::End(e.name)] =~= seq![
                    TokenModel::Text(e.text),
                ] + seq![TokenModel::End(e.name)]);
                lemma_run_concat(
                    filled,
                    seq![TokenModel::Text(e.text)],
                    seq![TokenModel::End(e.name)],
                );
                lemma_step_keeps_depth(texted, TokenModel::End(e.name));
                lemma_run_one(texted, TokenModel::End(e.name));
            }
        }
    }
}

/// Any prefix of the events of sibling elements, from a state with an open
/// element, leaves the builder waiting, with at least as many open elements.
proof fn lemma_children_prefix(st: BuildState, cs: Seq<Element>, k: int)
    requires
        st.frames.len() >= 1,
        0 <= k <= children_tokens(cs).len(),
    ensures
        run(st, children_tokens(cs).take(k)) matches Progress::Pending(next) && next.frames.len()
            >= st.frames.len(),
    decreases cs,
{
    if cs.len() == 0 {
        assert(children_tokens(cs).take(k) =~= Seq::<TokenModel>::empty());
    } else {
        let a = children_tokens(cs.drop_last());
        let b = element_tokens(cs.last());
        assert(children_tokens(cs) == a + b);
        if k <= a.len() {
            assert((a + b).take(k) =~= a.take(k));
            lemma_children_prefix(st, cs.drop_last(), k);
        } else {
            assert((a + b).take(k) =~= a + b.take(k - a.len()));
            assert(a.take(a.len() as int) =~= a);
            lemma_children_prefix(st, cs.drop_last(), a.len() as int);
            lemma_run_concat(st, a, b.take(k - a.len()));
            let mid = match run(st, a) {
                Progress::Pending(next) => next,
                Progress::Finished(_) => st,
            };
            lemma_element_prefix(mid, cs.last(), k - a.len());
        }
    }
}

proof fn lemma_truncated_pending(e: Element, k: int)
    requires
        0 <= k < element_tokens(e).len(),
    ensures
        run(initial_state(), element_tokens(e).take(k)) is Pending,
{
    let toks = element_tokens(e);
    let st = initial_state();
    let start = TokenModel::Start(e.name, e.attrs);
    let body = children_tokens(e.children);
    let n = body.len() as int;
    assert(toks =~= seq![start] + body + seq![TokenModel::Text(e.text), TokenModel::End(e.name)]);
    if k == 0 {
        assert(toks.take(0) =~= Seq::<TokenModel>::empty());
    } else {
        let started = BuildState { frames: st.frames.push((e.name, attrs_object(e.attrs))), text: Seq::empty() };
        lemma_run_one(st, start);
        if k <= n + 1 {
            assert(toks.take(k) =~= seq![start] + body.take(k - 1));
            lemma_run_concat(st, seq![start], body.take(k - 1));
            lemma_children_prefix(started, e.children, k - 1);
        } else {
            assert(body.take(n) =~= body);
            lemma_children_prefix(started, e.children, n);
            lemma_run_concat(st, seq![start], body);
            let filled = match run(started, body) {
                Progress::Pending(next) => next,
                Progress::Finished(_) => started,
            };
            lemma_run_one(filled, TokenModel::Text(e.text));
            assert(toks.take(k) =~= (seq![start] + body) + seq![TokenModel::Text(e.text)]);
            lemma_run_concat(st, seq![start] + body, seq![TokenModel::Text(e.text)]);
        }
    }
}

/// A stream that stops inside the outermost element gives `UnexpectedEof`,
/// never a partial tree, whatever events the builder passed over before it.
pub proof fn lemma_truncated_is_unexpected_eof(leading: Seq<TokenModel>, e: Element, k: int)
    requires
        forall|i: int| 0 <= i < leading.len() ==> #[trigger] leading[i] is Other,
        0 <= k < element_tokens(e).len(),
    ensures
        tree_of_tokens(leading + element_tokens(e).take(k)) == Err::<NodeModel, XmlError>(
            XmlError::UnexpectedEof,
        ),
{
    lemma_truncated_pending(e, k);
    lemma_run_passed_over(initial_state(), leading);
    lemma_run_concat(initial_state(), leading, element_tokens(e).take(k));
}

proof fn lemma_run_result_shape(st: BuildState, toks: Seq<TokenModel>)
    ensures
        run(st, toks) matches Progress::Finished(Ok(v)) ==> v matches NodeModel::Object(es) && es.len()
            == 1 && es[0].1 is Object,
    decreases toks.len(),
{
    if toks.len() > 0 {
        match step(st, toks[0]) {
            Progress::Pending(next) => lemma_run_result_shape(next, toks.drop_first()),
            Progress::Finished(_) => {},
        }
    }
}

/// A tree, where the builder gives one, is a single-key object whose value is
/// the outermost element's object, never a bare text.
pub proof fn lemma_tree_is_single_object(tokens: Seq<TokenModel>)
    ensures
        tree_of_tokens(tokens) matches Ok(v) ==> v matches NodeModel::Object(es) && es.len() == 1
            && es[0].1 is Object,
{
    lemma_run_result_shape(initial_state(), tokens);
}

} // verus!
