//! Turns the event stream of an XML document into a [`Node`] tree.
//!
//! The events come from the `xml` crate's pull parser. The builder keeps a
//! stack of open elements, each with its object under construction, and a
//! buffer for the text seen since the last start or end tag.
use vstd::prelude::*;
use xml::reader::{ErrorKind, EventReader, ParserConfig, XmlEvent};

use crate::naming::{convert_camel_to_snake, snake_case};
use crate::node::{
    entries_model, insert_entry, insert_text, lemma_entries_model, merge_child, put_child,
    put_entry, put_text, Node, NodeModel,
};

verus! {

/// One structural event of an XML document.
#[derive(Debug, Clone, PartialEq, Eq)]
pub enum XmlToken {
    /// A start tag: the element's local name and its attributes as
    /// (local name, value) pairs, in document order.
    Start(String, Vec<(String, String)>),
    /// An end tag, with the element's local name.
    End(String),
    /// Character data.
    Text(String),
    /// Anything the builder passes over: the document's start and end, a
    /// processing instruction, a CDATA section, a comment or whitespace.
    Other,
    /// A syntax error reported by the parser.
    Malformed,
}

/// The mathematical value of an [`XmlToken`].
pub enum TokenModel {
    Start(Seq<char>, Seq<(Seq<char>, Seq<char>)>),
    End(Seq<char>),
    Text(Seq<char>),
    Other,
    Malformed,
}

pub open spec fn attrs_model(attrs: Seq<(String, String)>) -> Seq<(Seq<char>, Seq<char>)> {
    Seq::new(attrs.len(), |i: int| (attrs[i].0@, attrs[i].1@))
}

impl XmlToken {
    pub open spec fn model(self) -> TokenModel {
        match self {
            XmlToken::Start(name, attrs) => TokenModel::Start(name@, attrs_model(attrs@)),
            XmlToken::End(name) => TokenModel::End(name@),
            XmlToken::Text(t) => TokenModel::Text(t@),
            XmlToken::Other => TokenModel::Other,
            XmlToken::Malformed => TokenModel::Malformed,
        }
    }
}

pub open spec fn tokens_model(tokens: Seq<XmlToken>) -> Seq<TokenModel> {
    Seq::new(tokens.len(), |i: int| tokens[i].model())
}

/// Why a document gave no tree.
#[derive(Debug, Clone, Copy, PartialEq, Eq, Structural)]
pub enum XmlError {
    /// The parser reported a syntax error.
    Malformed,
    /// The events ended before the outermost element was closed.
    UnexpectedEof,
}

/// The events that the `xml` crate's parser reports for a document, read with
/// whitespace trimmed, comments dropped and adjacent character data joined.
/// Where the document ends before its outermost element is closed, or holds no
/// element at all, the events stop there: the parser's end-of-input error is
/// not among them.
pub uninterp spec fn xml_events(doc: Seq<char>) -> Seq<TokenModel>;

/// Relies on `xml::reader::EventReader` and its event iterator, which stops
/// after the end of the document or after the first error; the errors for
/// input that ends too early are the `UnexpectedEof` kind and the syntax
/// errors whose message starts "Unexpected end of stream".
#[verifier::external_body]
fn read_events(doc: &str) -> (r: Vec<XmlToken>)
    ensures
        tokens_model(r@) == xml_events(doc@),
{
    let mut tokens = Vec::new();
    for event in EventReader::new_with_config(doc.as_bytes(), ParserConfig::new().trim_whitespace(true)) {
        tokens.push(match event {
            Ok(XmlEvent::StartElement { name, attributes, .. }) => XmlToken::Start(
                name.local_name,
                attributes.into_iter().map(|a| (a.name.local_name, a.value)).collect(),
            ),
            Ok(XmlEvent::EndElement { name }) => XmlToken::End(name.local_name),
            Ok(XmlEvent::Characters(text)) => XmlToken::Text(text),
            Ok(_) => XmlToken::Other,
            Err(e) if matches!(e.kind(), ErrorKind::UnexpectedEof) || e.msg().starts_with("Unexpected end of stream") => break,
            Err(_) => XmlToken::Malformed,
        });
    }
    tokens
}

/// Whether a character has the Unicode `White_Space` property.
pub open spec fn is_white_space(c: char) -> bool {
    let u = c as u32;
    ||| 0x9 <= u <= 0xd
    ||| u == 0x20 || u == 0x85 || u == 0xa0 || u == 0x1680
    ||| 0x2000 <= u <= 0x200a
    ||| u == 0x2028 || u == 0x2029 || u == 0x202f || u == 0x205f || u == 0x3000
}

/// The text without its leading whitespace.
pub open spec fn trim_start(s: Seq<char>) -> Seq<char>
    decreases s.len(),
{
    if s.len() > 0 && is_white_space(s[0]) {
        trim_start(s.drop_first())
    } else {
        s
    }
}

/// The text without its trailing whitespace.
pub open spec fn trim_end(s: Seq<char>) -> Seq<char>
    decreases s.len(),
{
    if s.len() > 0 && is_white_space(s.last()) {
        trim_end(s.drop_last())
    } else {
        s
    }
}

/// The text without leading and trailing whitespace.
pub open spec fn trimmed(s: Seq<char>) -> Seq<char> {
    trim_end(trim_start(s))
}

/// Relies on `str::trim`, which removes the leading and trailing characters
/// that have the Unicode `White_Space` property.
#[verifier::external_body]
fn trim_text(s: &str) -> (r: String)
    ensures
        r@ == trimmed(s@),
{
    s.trim().to_string()
}

/// The builder's state: the open elements, innermost last, each with its
/// object so far, and the text seen since the last tag.
pub struct BuildState {
    pub frames: Seq<(Seq<char>, Seq<(Seq<char>, NodeModel)>)>,
    pub text: Seq<char>,
}

/// What the builder does after an event: wait for more, or stop with a result.
pub enum Progress {
    Pending(BuildState),
    Finished(Result<NodeModel, XmlError>),
}

pub open spec fn initial_state() -> BuildState {
    BuildState { frames: Seq::empty(), text: Seq::empty() }
}

/// The object that a start tag opens: each attribute under its normalized
/// name, as text.
pub open spec fn attrs_object(attrs: Seq<(Seq<char>, Seq<char>)>) -> Seq<(Seq<char>, NodeModel)>
    decreases attrs.len(),
{
    if attrs.len() == 0 {
        Seq::empty()
    } else {
        insert_entry(
            attrs_object(attrs.drop_last()),
            snake_case(attrs.last().0),
            NodeModel::Scalar(attrs.last().1),
        )
    }
}

/// An element's object once its end tag is seen: the trimmed text, where
/// there is any, goes under the reserved key.
pub open spec fn close_object(obj: Seq<(Seq<char>, NodeModel)>, text: Seq<char>) -> Seq<
    (Seq<char>, NodeModel),
> {
    if trimmed(text).len() > 0 {
        insert_text(obj, trimmed(text))
    } else {
        obj
    }
}

/// One transition of the builder.
pub open spec fn step(st: BuildState, tok: TokenModel) -> Progress {
    match tok {
        TokenModel::Start(name, attrs) => Progress::Pending(
            BuildState { frames: st.frames.push((name, attrs_object(attrs))), text: Seq::empty() },
        ),
        TokenModel::Text(t) => Progress::Pending(
            BuildState { frames: st.frames, text: st.text + t },
        ),
        TokenModel::End(name) => {
            if st.frames.len() == 0 {
                Progress::Pending(BuildState { frames: st.frames, text: Seq::empty() })
            } else {
                let top = st.frames.last();
                let rest = st.frames.drop_last();
                let node = NodeModel::Object(close_object(top.1, st.text));
                if rest.len() == 0 {
                    Progress::Finished(Ok(NodeModel::Object(seq![(name, node)])))
                } else {
                    let parent = rest.last();
                    Progress::Pending(
                        BuildState {
                            frames: rest.drop_last().push(
                                (parent.0, merge_child(parent.1, top.0, node)),
                            ),
                            text: Seq::empty(),
                        },
                    )
                }
            }
        },
        TokenModel::Other => Progress::Pending(st),
        TokenModel::Malformed => Progress::Finished(Err(XmlError::Malformed)),
    }
}

/// The builder run on `tokens` from state `st`.
pub open spec fn run(st: BuildState, tokens: Seq<TokenModel>) -> Progress
    decreases tokens.len(),
{
    if tokens.len() == 0 {
        Progress::Pending(st)
    } else {
        match step(st, tokens[0]) {
            Progress::Pending(next) => run(next, tokens.drop_first()),
            Progress::Finished(r) => Progress::Finished(r),
        }
    }
}

/// The tree that an event stream gives: the outermost element under its name,
/// or the error that stopped the builder, or `UnexpectedEof` where the stream
/// ends first.
pub open spec fn tree_of_tokens(tokens: Seq<TokenModel>) -> Result<NodeModel, XmlError> {
    match run(initial_state(), tokens) {
        Progress::Finished(r) => r,
        Progress::Pending(_) => Err(XmlError::UnexpectedEof),
    }
}

pub open spec fn result_model(r: Result<Node, XmlError>) -> Result<NodeModel, XmlError> {
    match r {
        Ok(n) => Ok(n.model()),
        Err(e) => Err(e),
    }
}

pub open spec fn frames_model(frames: Seq<(String, Vec<(String, Node)>)>) -> Seq<
    (Seq<char>, Seq<(Seq<char>, NodeModel)>),
> {
    Seq::new(frames.len(), |i: int| (frames[i].0@, entries_model(frames[i].1@)))
}

/// The tree builder: a stack of open elements and a text buffer.
pub struct TreeBuilder {
    frames: Vec<(String, Vec<(String, Node)>)>,
    text: String,
}

impl TreeBuilder {
    pub closed spec fn state(&self) -> BuildState {
        BuildState { frames: frames_model(self.frames@), text: self.text@ }
    }

    /// A builder with no open element.
    pub fn new() -> (b: TreeBuilder)
        ensures
            b.state() == initial_state(),
    {
        let b = TreeBuilder { frames: Vec::new(), text: String::new() };
        assert(b.state().frames =~= Seq::<(Seq<char>, Seq<(Seq<char>, NodeModel)>)>::empty());
        b
    }

    /// Takes one event. Returns the result where the event ends the build.
    pub fn feed(&mut self, tok: &XmlToken) -> (r: Option<Result<Node, XmlError>>)
        ensures
            match step(old(self).state(), tok.model()) {
                Progress::Pending(next) => r is None && final(self).state() == next,
                Progress::Finished(res) => r is Some && result_model(r->0) == res,
            },
    {
        match tok {
            XmlToken::Start(name, attrs) => {
                let obj = attributes_object(attrs);
                let ghost before = self.frames@;
                self.frames.push((name.clone(), obj));
                self.text = String::new();
                assert(self.state().frames =~= frames_model(before).push(
                    (name@, attrs_object(attrs_model(attrs@))),
                ));
                None
            },
            XmlToken::Text(t) => {
                self.text.append(t.as_str());
                None
            },
            XmlToken::End(name) => {
                let ghost before = self.frames@;
                match self.frames.pop() {
                    None => {
                        self.text = String::new();
                        None
                    },
                    Some((element_name, mut obj)) => {
                        assert(frames_model(self.frames@) =~= frames_model(before).drop_last());
                        let trimmed_text = trim_text(self.text.as_str());
                        finish_object(&mut obj, trimmed_text);
                        self.text = String::new();
                        let node = Node::Object(obj);
                        let ghost rest = self.frames@;
                        match self.frames.pop() {
                            None => {
                                let ghost m = node.model();
                                let mut root: Vec<(String, Node)> = Vec::new();
                                root.push((name.clone(), node));
                                proof {
                                    lemma_entries_model(root@);
                                    assert(entries_model(root@) =~= seq![(name@, m)]);
                                }
                                Some(Ok(Node::Object(root)))
                            },
                            Some((parent_name, mut parent_obj)) => {
                                put_child(&mut parent_obj, element_name, node);
                                let ghost popped = self.frames@;
                                self.frames.push((parent_name, parent_obj));
                                assert(frames_model(popped) =~= frames_model(rest).drop_last());
                                assert(self.state().frames =~= frames_model(
                                    popped,
                                ).push((parent_name@, entries_model(parent_obj@))));
                                None
                            },
                        }
                    },
                }
            },
            XmlToken::Other => None,
            XmlToken::Malformed => Some(Err(XmlError::Malformed)),
        }
    }
}

/// Completes an element's object with its trimmed text, where that text is
/// not empty.
pub fn finish_object(obj: &mut Vec<(String, Node)>, trimmed_text: String)
    ensures
        entries_model(final(obj)@) == if trimmed_text@.len() > 0 {
            insert_text(entries_model(old(obj)@), trimmed_text@)
        } else {
            entries_model(old(obj)@)
        },
{
    if !trimmed_text.as_str().is_empty() {
        put_text(obj, trimmed_text);
    }
}

/// The object that a start tag opens, as [`attrs_object`] describes.
fn attributes_object(attrs: &Vec<(String, String)>) -> (r: Vec<(String, Node)>)
    ensures
        entries_model(r@) == attrs_object(attrs_model(attrs@)),
{
    let mut obj: Vec<(String, Node)> = Vec::new();
    let ghost a = attrs_model(attrs@);
    let mut i: usize = 0;
    assert(a.take(0) =~= Seq::<(Seq<char>, Seq<char>)>::empty());
    while i < attrs.len()
        invariant
            i <= attrs.len(),
            a == attrs_model(attrs@),
            entries_model(obj@) == attrs_object(a.take(i as int)),
        decreases attrs.len() - i,
    {
        let key = convert_camel_to_snake(attrs[i].0.as_str());
        put_entry(&mut obj, key, Node::Scalar(attrs[i].1.clone()));
        assert(a.take(i + 1).drop_last() =~= a.take(i as int));
        i = i + 1;
    }
    assert(a.take(attrs.len() as int) =~= a);
    obj
}

proof fn lemma_run_skip(st: BuildState, tokens: Seq<TokenModel>, i: int)
    requires
        0 <= i < tokens.len(),
    ensures
        run(st, tokens.skip(i)) == match step(st, tokens[i]) {
            Progress::Pending(next) => run(next, tokens.skip(i + 1)),
            Progress::Finished(r) => Progress::Finished(r),
        },
{
    assert(tokens.skip(i).drop_first() =~= tokens.skip(i + 1));
}

/// Builds the tree of an event stream, as [`tree_of_tokens`] describes. Events
/// after the outermost element's end tag are not read.
pub fn build_tree(tokens: &Vec<XmlToken>) -> (r: Result<Node, XmlError>)
    ensures
        result_model(r) == tree_of_tokens(tokens_model(tokens@)),
{
    let ghost toks = tokens_model(tokens@);
    let mut builder = TreeBuilder::new();
    let mut i: usize = 0;
    assert(toks.skip(0) =~= toks);
    while i < tokens.len()
        invariant
            i <= tokens.len(),
            toks == tokens_model(tokens@),
            run(initial_state(), toks) == run(builder.state(), toks.skip(i as int)),
        decreases tokens.len() - i,
    {
        proof {
            lemma_run_skip(builder.state(), toks, i as int);
        }
        match builder.feed(&tokens[i]) {
            Some(r) => {
                return r;
            },
            None => {},
        }
        i = i + 1;
    }
    Err(XmlError::UnexpectedEof)
}

/// Parses an XML document into a tree: a single-key object that maps the
/// outermost element's name to that element's object.
pub fn parse_xml_to_json(xml_str: &str) -> (r: Result<Node, XmlError>)
    ensures
        result_model(r) == tree_of_tokens(xml_events(xml_str@)),
{
    let tokens = read_events(xml_str);
    build_tree(&tokens)
}

} // verus!
