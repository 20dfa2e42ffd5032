//! Syntax trees from the tree-sitter grammars, read into a flat list of
//! nodes in document order, and the check that a parse is clean.

use vstd::prelude::*;

use vstd::utf8::*;

use crate::lang::SupportedLanguage;
use crate::operations::{SyntaxError, ValidationError};
use crate::text::{lemma_valid_between, push_range, string_of_bytes, text_bytes};

verus! {

broadcast use encode_utf8_valid_utf8;

#[verifier::external_type_specification]
#[verifier::external_body]
pub struct ExLanguage(tree_sitter::Language);

#[verifier::external_type_specification]
#[verifier::external_body]
pub struct ExTree(tree_sitter::Tree);

#[verifier::external_type_specification]
#[verifier::external_body]
pub struct ExTreeCursor<'a>(tree_sitter::TreeCursor<'a>);

#[verifier::external_type_specification]
#[verifier::external_body]
pub struct ExNode<'a>(tree_sitter::Node<'a>);

/// One node of a syntax tree.
#[derive(Debug, Clone)]
pub struct SyntaxNode {
    pub kind: String,
    pub start: usize,
    pub end: usize,
    /// 0-indexed row of the first byte.
    pub row: usize,
    /// 0-indexed column (in bytes) of the first byte.
    pub column: usize,
    /// 0-indexed row of the end.
    pub end_row: usize,
    /// The index of the parent node in the list.
    pub parent: Option<usize>,
    /// The name of the field this node fills in its parent.
    pub field: Option<String>,
    pub is_error: bool,
    pub is_missing: bool,
}

/// Relies on `tree_sitter_typescript::LANGUAGE_TYPESCRIPT`.
#[verifier::external_body]
fn typescript_language() -> tree_sitter::Language {
    tree_sitter_typescript::LANGUAGE_TYPESCRIPT.into()
}

/// Relies on `tree_sitter_typescript::LANGUAGE_TSX`.
#[verifier::external_body]
fn tsx_language() -> tree_sitter::Language {
    tree_sitter_typescript::LANGUAGE_TSX.into()
}

/// Relies on `tree_sitter_javascript::LANGUAGE`.
#[verifier::external_body]
fn javascript_language() -> tree_sitter::Language {
    tree_sitter_javascript::LANGUAGE.into()
}

/// Relies on `tree_sitter_css::LANGUAGE`.
#[verifier::external_body]
fn css_language() -> tree_sitter::Language {
    tree_sitter_css::LANGUAGE.into()
}

impl SupportedLanguage {
    /// The grammar of this language (TSX for JSX).
    pub fn ts_language(&self) -> tree_sitter::Language {
        match self {
            SupportedLanguage::TypeScript => typescript_language(),
            SupportedLanguage::Tsx | SupportedLanguage::Jsx => tsx_language(),
            SupportedLanguage::JavaScript => javascript_language(),
            SupportedLanguage::Css => css_language(),
        }
    }
}

/// What parsing `text` with the grammar of `lang` gives: `None` when the
/// parse gives up, else whether its tree is free of syntax errors (no ERROR
/// or MISSING node). A parse depends on the text and the grammar alone.
pub uninterp spec fn parse_verdict(text: Seq<char>, lang: SupportedLanguage) -> Option<bool>;

/// Relies on the grammar constants, `Parser::set_language` and
/// `Parser::parse`: the tree of the text, errors and all, or `ParseFailed`
/// exactly when the parse gives up.
#[verifier::external_body]
pub fn parse_best_effort(source: &str, lang: SupportedLanguage) -> (r: Result<tree_sitter::Tree, ValidationError>)
    ensures
        r matches Err(e) ==> e matches ValidationError::ParseFailed,
        r is Err <==> parse_verdict(source@, lang) is None,
{
    let language: tree_sitter::Language = match lang {
        SupportedLanguage::TypeScript => tree_sitter_typescript::LANGUAGE_TYPESCRIPT.into(),
        SupportedLanguage::Tsx => tree_sitter_typescript::LANGUAGE_TSX.into(),
        SupportedLanguage::Jsx => tree_sitter_typescript::LANGUAGE_TSX.into(),
        SupportedLanguage::JavaScript => tree_sitter_javascript::LANGUAGE.into(),
        SupportedLanguage::Css => tree_sitter_css::LANGUAGE.into(),
    };
    let mut parser = tree_sitter::Parser::new();
    match parser.set_language(&language) {
        Ok(()) => parser.parse(source, None).ok_or(ValidationError::ParseFailed),
        Err(_) => Err(ValidationError::ParseFailed),
    }
}

/// Relies on the grammar constants, `Parser::parse` and `Node::has_error`
/// on the root (an ERROR or MISSING node anywhere): whether the parse of the
/// text is clean, none when the parse gives up.
#[verifier::external_body]
pub fn parse_clean(source: &str, lang: SupportedLanguage) -> (r: Option<bool>)
    ensures
        r == parse_verdict(source@, lang),
{
    let language: tree_sitter::Language = match lang {
        SupportedLanguage::TypeScript => tree_sitter_typescript::LANGUAGE_TYPESCRIPT.into(),
        SupportedLanguage::Tsx => tree_sitter_typescript::LANGUAGE_TSX.into(),
        SupportedLanguage::Jsx => tree_sitter_typescript::LANGUAGE_TSX.into(),
        SupportedLanguage::JavaScript => tree_sitter_javascript::LANGUAGE.into(),
        SupportedLanguage::Css => tree_sitter_css::LANGUAGE.into(),
    };
    let mut parser = tree_sitter::Parser::new();
    parser.set_language(&language).ok()?;
    parser.parse(source, None).map(|t| !t.root_node().has_error())
}

/// Relies on `Tree::walk`: a cursor on the root node.
#[verifier::external_body]
fn tree_walk<'a>(tree: &'a tree_sitter::Tree) -> tree_sitter::TreeCursor<'a> {
    tree.walk()
}

/// Relies on `TreeCursor::node`: the node under the cursor.
#[verifier::external_body]
fn cursor_node<'a>(c: &tree_sitter::TreeCursor<'a>) -> tree_sitter::Node<'a> {
    c.node()
}

/// Relies on `TreeCursor::goto_first_child`.
#[verifier::external_body]
fn cursor_first_child(c: &mut tree_sitter::TreeCursor) -> bool {
    c.goto_first_child()
}

/// Relies on `TreeCursor::goto_next_sibling`.
#[verifier::external_body]
fn cursor_next_sibling(c: &mut tree_sitter::TreeCursor) -> bool {
    c.goto_next_sibling()
}

/// Relies on `TreeCursor::goto_parent`.
#[verifier::external_body]
fn cursor_parent(c: &mut tree_sitter::TreeCursor) -> bool {
    c.goto_parent()
}

/// Relies on `TreeCursor::field_name`: the field the current node fills.
#[verifier::external_body]
fn cursor_field(c: &tree_sitter::TreeCursor) -> Option<String> {
    c.field_name().map(|f| f.to_string())
}

/// Relies on `Node::kind`.
#[verifier::external_body]
fn node_kind(n: &tree_sitter::Node) -> String {
    n.kind().to_string()
}

/// Relies on `Node::start_byte`.
#[verifier::external_body]
fn node_start(n: &tree_sitter::Node) -> usize {
    n.start_byte()
}

/// Relies on `Node::end_byte`.
#[verifier::external_body]
fn node_end(n: &tree_sitter::Node) -> usize {
    n.end_byte()
}

/// Relies on `Node::start_position`: its row and column.
#[verifier::external_body]
fn node_position(n: &tree_sitter::Node) -> (usize, usize) {
    let p = n.start_position();
    (p.row, p.column)
}

/// Relies on `Node::end_position`: its row.
#[verifier::external_body]
fn node_end_row(n: &tree_sitter::Node) -> usize {
    n.end_position().row
}

/// Relies on `Node::is_error`.
#[verifier::external_body]
fn node_is_error(n: &tree_sitter::Node) -> bool {
    n.is_error()
}

/// Relies on `Node::is_missing`.
#[verifier::external_body]
fn node_is_missing(n: &tree_sitter::Node) -> bool {
    n.is_missing()
}

/// Every node's parent comes before it.
pub open spec fn parents_first(ns: Seq<SyntaxNode>) -> bool {
    forall|i: int| 0 <= i < ns.len() ==> match (#[trigger] ns[i]).parent {
        Some(p) => p < i,
        None => true,
    }
}

/// The nodes of `tree` in document order (each node before its children,
/// children in order), each with the index of its parent.
pub fn flatten_tree(tree: &tree_sitter::Tree) -> (r: Vec<SyntaxNode>)
    ensures
        parents_first(r@),
{
    let mut c = tree_walk(tree);
    let mut out: Vec<SyntaxNode> = Vec::new();
    let mut parents: Vec<usize> = Vec::new();
    let mut fuel: usize = usize::MAX;
    loop
        invariant
            parents_first(out@),
            forall|j: int| 0 <= j < parents@.len() ==> #[trigger] parents@[j] < out@.len(),
        decreases fuel,
    {
        if fuel == 0 {
            return out;
        }
        fuel -= 1;
        let n = cursor_node(&c);
        let (row, column) = node_position(&n);
        let parent = if parents.len() > 0 { Some(parents[parents.len() - 1]) } else { None };
        out.push(SyntaxNode {
            kind: node_kind(&n),
            start: node_start(&n),
            end: node_end(&n),
            row,
            column,
            end_row: node_end_row(&n),
            parent,
            field: cursor_field(&c),
            is_error: node_is_error(&n),
            is_missing: node_is_missing(&n),
        });
        if cursor_first_child(&mut c) {
            parents.push(out.len() - 1);
        } else {
            let ghost f1 = fuel;
            loop
                invariant
                    fuel <= f1,
                    parents_first(out@),
                    forall|j: int| 0 <= j < parents@.len() ==> #[trigger] parents@[j] < out@.len(),
                decreases fuel,
            {
                if fuel == 0 {
                    return out;
                }
                fuel -= 1;
                if cursor_next_sibling(&mut c) {
                    break;
                }
                if !cursor_parent(&mut c) {
                    return out;
                }
                parents.pop();
            }
        }
    }
}

/// `i` is a character boundary of `s` (its end included).
pub open spec fn boundary(s: &str, i: int) -> bool {
    is_char_boundary(text_bytes(s@), i)
}

pub(crate) proof fn lemma_boundary_valid(s: &str, i: int)
    requires
        boundary(s, i),
    ensures
        0 <= i <= text_bytes(s@).len(),
        partial_valid_utf8(text_bytes(s@), i),
{
    let b = text_bytes(s@);
    encode_utf8_valid_utf8(s@);
    valid_utf8_split(b, i);
    lemma_char_boundary_range(b, i);
}

proof fn lemma_char_boundary_range(b: Seq<u8>, i: int)
    requires
        valid_utf8(b),
        is_char_boundary(b, i),
    ensures
        0 <= i <= b.len(),
    decreases b.len(),
{
    if i != 0 {
        assert(valid_first_scalar(b));
        lemma_char_boundary_range(pop_first_scalar(b), i - length_of_first_scalar(b));
    }
}

proof fn lemma_end_boundary(b: Seq<u8>)
    requires
        valid_utf8(b),
    ensures
        is_char_boundary(b, b.len() as int),
    decreases b.len(),
{
    if b.len() > 0 {
        let k = length_of_first_scalar(b);
        assert(valid_first_scalar(b));
        lemma_pop_shorter(b);
        lemma_end_boundary(pop_first_scalar(b));
    }
}

proof fn lemma_pop_shorter(b: Seq<u8>)
    requires
        valid_utf8(b),
        b.len() > 0,
    ensures
        valid_first_scalar(b),
        1 <= length_of_first_scalar(b) <= b.len(),
        valid_utf8(pop_first_scalar(b)),
        pop_first_scalar(b).len() == b.len() - length_of_first_scalar(b),
{
}

/// `r` is the last character boundary of `s` at or before `idx` (the end
/// when `idx` is past it).
pub open spec fn is_floor(s: &str, idx: int, r: int) -> bool {
    &&& boundary(s, r)
    &&& (idx >= text_bytes(s@).len() ==> r == text_bytes(s@).len())
    &&& (idx < text_bytes(s@).len() ==> r <= idx && forall|j: int| r < j <= idx ==> !boundary(s, j))
}

/// `r` is the first character boundary of `s` at or after `idx` (the end
/// when `idx` is past it).
pub open spec fn is_ceil(s: &str, idx: int, r: int) -> bool {
    &&& boundary(s, r)
    &&& (idx >= text_bytes(s@).len() ==> r == text_bytes(s@).len())
    &&& (idx < text_bytes(s@).len() ==> idx <= r && forall|j: int| idx <= j < r ==> !boundary(s, j))
}

/// The last character boundary at or before `idx` (the end when `idx` is past it).
pub fn floor_char_boundary(s: &str, idx: usize) -> (r: usize)
    ensures
        is_floor(s, idx as int, r as int),
{
    proof {
        lemma_end_boundary(text_bytes(s@));
    }
    let n = s.as_bytes().len();
    if idx >= n {
        return n;
    }
    let mut i = idx;
    while i > 0 && !s.is_char_boundary(i)
        invariant
            i <= idx < text_bytes(s@).len(),
            forall|j: int| i < j <= idx ==> !boundary(s, j),
        decreases i,
    {
        i -= 1;
    }
    i
}

/// The first character boundary at or after `idx` (the end when `idx` is past it).
pub fn ceil_char_boundary(s: &str, idx: usize) -> (r: usize)
    ensures
        is_ceil(s, idx as int, r as int),
{
    let n = s.as_bytes().len();
    proof {
        lemma_end_boundary(text_bytes(s@));
    }
    if idx >= n {
        return n;
    }
    let mut i = idx;
    while i < n && !s.is_char_boundary(i)
        invariant
            n == text_bytes(s@).len(),
            idx <= i <= n,
            forall|j: int| idx <= j < i ==> !boundary(s, j),
        decreases n - i,
    {
        i += 1;
    }
    i
}

pub open spec fn is_bad(n: SyntaxNode) -> bool {
    n.is_error || n.is_missing
}

/// No node is an ERROR or MISSING node.
pub open spec fn clean(ns: Seq<SyntaxNode>) -> bool {
    forall|i: int| 0 <= i < ns.len() ==> !is_bad(#[trigger] ns[i])
}

/// The number of ERROR or MISSING nodes among `ns[..k]`.
pub open spec fn bad_upto(ns: Seq<SyntaxNode>, k: int) -> nat
    decreases k,
{
    if k <= 0 {
        0
    } else {
        bad_upto(ns, k - 1) + (if is_bad(ns[k - 1]) { 1nat } else { 0nat })
    }
}

proof fn lemma_bad_count(ns: Seq<SyntaxNode>, k: int)
    requires
        0 <= k <= ns.len(),
    ensures
        bad_upto(ns, k) == 0 <==> forall|i: int| 0 <= i < k ==> !is_bad(#[trigger] ns[i]),
        bad_upto(ns, k) <= k,
    decreases k,
{
    if k > 0 {
        lemma_bad_count(ns, k - 1);
    }
}

/// The ERROR and MISSING nodes of a parse, each with about 30 bytes of
/// source on either side as context.
pub fn syntax_errors(ns: &Vec<SyntaxNode>, source: &str) -> (r: Vec<SyntaxError>)
    ensures
        r@.len() == bad_upto(ns@, ns@.len() as int),
        r@.len() == 0 <==> clean(ns@),
{
    let mut out: Vec<SyntaxError> = Vec::new();
    let mut i: usize = 0;
    while i < ns.len()
        invariant
            i <= ns@.len(),
            out@.len() == bad_upto(ns@, i as int),
            out@.len() <= i,
        decreases ns@.len() - i,
    {
        let n = &ns[i];
        if n.is_error || n.is_missing {
            if n.row < usize::MAX && n.column < usize::MAX {
                let context = context_around(source, n.start, n.end);
                out.push(SyntaxError { line: n.row + 1, column: n.column + 1, context, node_kind: n.kind.clone() });
            } else {
                out.push(SyntaxError { line: n.row, column: n.column, context: String::new(), node_kind: n.kind.clone() });
            }
        }
        i += 1;
    }
    proof {
        lemma_bad_count(ns@, ns@.len() as int);
    }
    out
}

/// The source around `[start, end)`: 30 bytes more on each side, widened to
/// character boundaries and cut to the text.
pub open spec fn context_lo(start: usize) -> int {
    if start >= 30 { start - 30 } else { 0 }
}

pub open spec fn context_hi(end: usize, n: int) -> int {
    if end < n && n - end > 30 { end + 30 } else { n }
}

pub fn context_around(source: &str, start: usize, end: usize) -> (r: String)
    ensures
        ({
            let src = text_bytes(source@);
            if src.len() == 0 {
                r@.len() == 0
            } else {
                exists|a: int, b: int| #[trigger] is_floor(source, context_lo(start), a) && #[trigger] is_ceil(source, context_hi(end, src.len() as int), b) && text_bytes(r@) == (if a
                    <= b { src.subrange(a, b) } else { Seq::empty() })
            }
        }),
{
    let n = source.as_bytes().len();
    if n == 0 {
        return String::new();
    }
    let a = floor_char_boundary(source, if start >= 30 { start - 30 } else { 0 });
    let e = if end < n && n - end > 30 { end + 30 } else { n };
    let b = ceil_char_boundary(source, e);
    if a > b {
        let r = String::new();
        assert(text_bytes(r@) =~= Seq::<u8>::empty());
        let ghost src = text_bytes(source@);
        assert(is_floor(source, context_lo(start), a as int));
        assert(is_ceil(source, context_hi(end, src.len() as int), b as int));
        assert(text_bytes(r@) == (if a <= b { src.subrange(a as int, b as int) } else { Seq::<u8>::empty() }));
        return r;
    }
    proof {
        lemma_boundary_valid(source, a as int);
        lemma_boundary_valid(source, b as int);
        encode_utf8_valid_utf8(source@);
        lemma_valid_between(text_bytes(source@), a as int, b as int);
    }
    let mut out: Vec<u8> = Vec::new();
    push_range(&mut out, source.as_bytes(), a, b);
    let r = string_of_bytes(out);
    let ghost src = text_bytes(source@);
    assert(is_floor(source, context_lo(start), a as int));
    assert(is_ceil(source, context_hi(end, src.len() as int), b as int));
    assert(text_bytes(r@) == (if a <= b { src.subrange(a as int, b as int) } else { Seq::<u8>::empty() }));
    r
}

/// The nodes of `source` when its parse is clean; else the failure or the
/// ERROR and MISSING nodes found.
pub fn verify_parse(source: &str, lang: SupportedLanguage) -> (r: Result<Vec<SyntaxNode>, ValidationError>)
    ensures
        r is Ok <==> parse_verdict(source@, lang) == Some(true),
        r matches Err(ValidationError::ParseFailed) <==> parse_verdict(source@, lang) is None,
        r matches Err(ValidationError::SyntaxErrors { count, errors }) ==> parse_verdict(source@, lang) == Some(false)
            && count == errors@.len(),
        r matches Ok(ns) ==> parents_first(ns@),
{
    let tree = match parse_best_effort(source, lang) {
        Ok(t) => t,
        Err(e) => return Err(e),
    };
    let ns = flatten_tree(&tree);
    match parse_clean(source, lang) {
        Some(true) => Ok(ns),
        _ => {
            let errors = syntax_errors(&ns, source);
            Err(ValidationError::SyntaxErrors { count: errors.len(), errors })
        },
    }
}

/// The number of ERROR and MISSING nodes of a parse.
pub fn count_errors(ns: &Vec<SyntaxNode>) -> (r: usize)
    ensures
        r == bad_upto(ns@, ns@.len() as int),
{
    let mut n: usize = 0;
    let mut i: usize = 0;
    while i < ns.len()
        invariant
            i <= ns@.len(),
            n == bad_upto(ns@, i as int),
            n <= i,
        decreases ns@.len() - i,
    {
        if ns[i].is_error || ns[i].is_missing {
            n += 1;
        }
        i += 1;
    }
    n
}

/// The grammar of the language named `lang`.
pub fn get_language(lang: &str) -> (r: Result<tree_sitter::Language, crate::lang::LangError>)
    ensures
        r is Ok <==> crate::lang::language_named(crate::lang::lower_of(lang@)) is Some,
{
    match SupportedLanguage::from_str(lang) {
        Ok(l) => Ok(l.ts_language()),
        Err(e) => Err(e),
    }
}

} // verus!
