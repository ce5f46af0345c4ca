//! Properties of the parser as a whole, proved over the grammar.
use vstd::prelude::*;

use crate::ast::{empty_unit, ClassModel, CompilationUnit, ParseError, ParseErrorKind, UnitModel};
use crate::grammar::{
    access_at, annotation_at, byte_at, class_at, class_body, class_item_at, decl_at,
    with_class_item, opt_access, parse_source, top_item_at,
    unit_from, with_top_item, TopItem,
};
use crate::keyword::{keyword_bytes, Keyword};
use crate::lexical::{
    ascii_text, find_from, has_tag, in_run, is_space_byte, is_word_byte, lemma_run_bytes, newline,
    run_end, skip_many, skip_one, slash_slash, unclosed_comment, slash_star, star_slash, word_at, Run,
};
use crate::parser::outcome;

verus! {

/// A non-empty sequence of word bytes.
pub open spec fn is_word_seq(w: Seq<u8>) -> bool {
    w.len() > 0 && forall|i: int| 0 <= i < w.len() ==> is_word_byte(#[trigger] w[i])
}

/// Word bytes read as characters.
pub open spec fn word_chars(w: Seq<u8>) -> Seq<char> {
    w.map_values(|x: u8| (x as u32) as char)
}

/// The declaration `k w;`, with one space after the keyword.
pub open spec fn decl_text(k: Keyword, w: Seq<u8>) -> Seq<u8> {
    keyword_bytes(k) + seq![0x20u8] + w + seq![0x3bu8]
}

/// One import declaration for each word, in order, with nothing between.
pub open spec fn imports_text(ws: Seq<Seq<u8>>) -> Seq<u8>
    decreases ws.len(),
{
    if ws.len() == 0 {
        seq![]
    } else {
        imports_text(ws.drop_last()) + decl_text(Keyword::Import, ws.last())
    }
}

proof fn lemma_bytes_of(s: Seq<u8>, p: int, t: Seq<u8>)
    requires
        0 <= p,
        p + t.len() <= s.len(),
        s.subrange(p, p + t.len()) == t,
    ensures
        forall|j: int| 0 <= j < t.len() ==> s[p + j] == #[trigger] t[j],
{
    assert forall|j: int| 0 <= j < t.len() implies s[p + j] == #[trigger] t[j] by {
        assert(s.subrange(p, p + t.len())[j] == s[p + j]);
    }
}

proof fn lemma_no_tag(s: Seq<u8>, p: int, t: Seq<u8>, j: int)
    requires
        0 <= j < t.len(),
        0 <= p + j < s.len() ==> s[p + j] != t[j],
    ensures
        !has_tag(s, p, t),
{
    if has_tag(s, p, t) {
        assert(s.subrange(p, p + t.len())[j] == s[p + j]);
    }
}

proof fn lemma_run_to(s: Seq<u8>, a: int, e: int, k: Run)
    requires
        0 <= a <= e <= s.len(),
        forall|i: int| a <= i < e ==> in_run(#[trigger] s[i], k),
        e < s.len() ==> !in_run(s[e], k),
    ensures
        run_end(s, a, k) == e,
    decreases e - a,
{
    if a < e {
        lemma_run_to(s, a + 1, e, k);
    }
}

proof fn lemma_find_none(s: Seq<u8>, p: int, t: Seq<u8>)
    requires
        forall|i: int| p <= i ==> !#[trigger] has_tag(s, i, t),
    ensures
        find_from(s, p, t) is None,
    decreases s.len() - p,
{
    if !(p < 0 || p >= s.len() || p + t.len() > s.len()) {
        lemma_find_none(s, p + 1, t);
    }
}

/// Where neither a skip unit nor a comment opener stands at `q`, no skip
/// unit is taken there.
proof fn lemma_no_skip(s: Seq<u8>, q: int)
    requires
        0 <= q < s.len(),
        s[q] != 0x2fu8,
        !(s[q] == 0x20u8 || s[q] == 0x09u8 || s[q] == 0x0au8 || s[q] == 0x0du8),
    ensures
        skip_one(s, q) is None,
        skip_many(s, q) == q,
{
    lemma_no_tag(s, q, slash_slash(), 0);
    lemma_no_tag(s, q, slash_star(), 0);
}

/// Nothing at all is recognized at the end of the input.
proof fn lemma_nothing_at_end(s: Seq<u8>)
    ensures
        top_item_at(s, s.len() as int) is None,
{
    let n = s.len() as int;
    assert(!has_tag(s, n, keyword_bytes(Keyword::Public)));
    assert(!has_tag(s, n, keyword_bytes(Keyword::Protected)));
    assert(!has_tag(s, n, keyword_bytes(Keyword::Private)));
    assert(access_at(s, n) is None);
    assert(!has_tag(s, n, slash_slash()));
    assert(!has_tag(s, n, slash_star()));
    assert(skip_one(s, n) is None);
    assert(skip_many(s, n) == n);
    assert(!has_tag(s, n, keyword_bytes(Keyword::Class)));
    assert(class_at(s, n) is None);
    assert(!has_tag(s, n, keyword_bytes(Keyword::Package)));
    assert(!has_tag(s, n, keyword_bytes(Keyword::Import)));
}

/// A declaration `k w;` standing at `p` is recognized whatever follows it.
proof fn lemma_decl(s: Seq<u8>, p: int, k: Keyword, w: Seq<u8>)
    requires
        k == Keyword::Package || k == Keyword::Import,
        is_word_seq(w),
        0 <= p,
        p + decl_text(k, w).len() <= s.len(),
        s.subrange(p, p + decl_text(k, w).len()) == decl_text(k, w),
    ensures
        decl_at(s, p, k) == Some((word_chars(w), p + decl_text(k, w).len())),
{
    let kw = keyword_bytes(k);
    let t = decl_text(k, w);
    let n = kw.len() as int;
    lemma_bytes_of(s, p, t);
    assert(s.subrange(p, p + n) =~= t.subrange(0, n));
    assert(t.subrange(0, n) =~= kw);
    assert(has_tag(s, p, kw));
    let a = p + n + 1;
    let b = a + w.len();
    assert(t[n] == 0x20u8);
    assert(s[p + n] == 0x20u8);
    assert forall|i: int| a <= i < b implies in_run(#[trigger] s[i], Run::Word) by {
        assert(t[n + 1 + (i - a)] == w[i - a]);
        assert(s[p + (n + 1 + (i - a))] == t[n + 1 + (i - a)]);
    }
    assert(t[n + 1 + w.len()] == 0x3bu8);
    assert(s[b] == 0x3bu8);
    assert(s[p + n + 1] == w[0]) by {
        assert(t[n + 1] == w[0]);
    }
    lemma_run_to(s, p + n + 1, a, Run::Space);
    lemma_run_to(s, p + n, a, Run::Space);
    assert(in_run(s[a], Run::Word));
    lemma_no_skip(s, a);
    assert(skip_many(s, p + n) == a);
    lemma_run_to(s, a, b, Run::Word);
    assert(word_at(s, a) == Some(b));
    lemma_no_skip(s, b);
    assert(byte_at(s, b, 0x3bu8));
    assert(s.subrange(a, b) =~= w) by {
        assert forall|i: int| 0 <= i < w.len() implies s.subrange(a, b)[i] == w[i] by {
            assert(t[n + 1 + i] == w[i]);
            assert(s[p + (n + 1 + i)] == t[n + 1 + i]);
        }
    }
    assert(ascii_text(s, a, b) == word_chars(w));
    assert(b + 1 == p + t.len());
}

/// A declaration `k w;` at `p`, as the top level sees it.
proof fn lemma_top_decl(s: Seq<u8>, p: int, k: Keyword, w: Seq<u8>)
    requires
        k == Keyword::Package || k == Keyword::Import,
        is_word_seq(w),
        0 <= p,
        p + decl_text(k, w).len() <= s.len(),
        s.subrange(p, p + decl_text(k, w).len()) == decl_text(k, w),
    ensures
        top_item_at(s, p) == Some(
            (
                if k == Keyword::Package {
                    TopItem::Package(word_chars(w))
                } else {
                    TopItem::Import(word_chars(w))
                },
                p + decl_text(k, w).len(),
            ),
        ),
{
    lemma_decl(s, p, k, w);
    if k == Keyword::Import {
        lemma_bytes_of(s, p, decl_text(k, w));
        assert(decl_text(k, w)[0] == 0x69u8);
        lemma_no_tag(s, p, keyword_bytes(Keyword::Package), 0);
    }
}

/// One step of the top-level fold.
proof fn lemma_fold_step(s: Seq<u8>, p: int, u: UnitModel, it: TopItem, q: int)
    requires
        top_item_at(s, p) == Some((it, q)),
        p < q <= s.len(),
    ensures
        unit_from(s, p, u) == unit_from(s, q, with_top_item(u, it)),
{
}

proof fn lemma_imports_prefix(ws: Seq<Seq<u8>>, i: int)
    requires
        0 <= i <= ws.len(),
    ensures
        imports_text(ws.take(i)).len() <= imports_text(ws).len(),
        imports_text(ws).subrange(0, imports_text(ws.take(i)).len() as int) == imports_text(
            ws.take(i),
        ),
    decreases ws.len() - i,
{
    if i == ws.len() {
        assert(ws.take(i) =~= ws);
        assert(imports_text(ws).subrange(0, imports_text(ws).len() as int) =~= imports_text(ws));
    } else {
        lemma_imports_prefix(ws, i + 1);
        assert(ws.take(i + 1).drop_last() =~= ws.take(i));
        assert(ws.take(i + 1).last() == ws[i]);
        let whole = imports_text(ws);
        let longer = imports_text(ws.take(i + 1));
        let shorter = imports_text(ws.take(i));
        assert(longer == shorter + decl_text(Keyword::Import, ws[i]));
        assert(whole.subrange(0, shorter.len() as int) =~= longer.subrange(0, shorter.len() as int));
        assert(longer.subrange(0, shorter.len() as int) =~= shorter);
    }
}

#[verifier::rlimit(30)]
proof fn lemma_imports_fold(ws: Seq<Seq<u8>>, i: int, u: UnitModel)
    requires
        forall|j: int| 0 <= j < ws.len() ==> is_word_seq(#[trigger] ws[j]),
        0 <= i <= ws.len(),
    ensures
        unit_from(imports_text(ws), imports_text(ws.take(i)).len() as int, u) == (
            UnitModel {
                imports: u.imports + ws.subrange(i, ws.len() as int).map_values(
                    |w: Seq<u8>| word_chars(w),
                ),
                ..u
            },
            imports_text(ws).len() as int,
        ),
    decreases ws.len() - i,
{
    let s = imports_text(ws);
    let p = imports_text(ws.take(i)).len() as int;
    let rest = ws.subrange(i, ws.len() as int).map_values(|w: Seq<u8>| word_chars(w));
    if i == ws.len() {
        assert(ws.take(i) =~= ws);
        lemma_nothing_at_end(s);
        assert(u.imports + rest =~= u.imports);
    } else {
        lemma_imports_prefix(ws, i + 1);
        assert(ws.take(i + 1).drop_last() =~= ws.take(i));
        assert(ws.take(i + 1).last() == ws[i]);
        let t = decl_text(Keyword::Import, ws[i]);
        let longer = imports_text(ws.take(i + 1));
        assert(longer == imports_text(ws.take(i)) + t);
        assert(s.subrange(p, p + t.len()) =~= t) by {
            assert(s.subrange(p, p + t.len()) =~= s.subrange(0, longer.len() as int).subrange(
                p,
                p + t.len(),
            ));
            assert(longer.subrange(p, p + t.len()) =~= t);
        }
        lemma_top_decl(s, p, Keyword::Import, ws[i]);
        let next = with_top_item(u, TopItem::Import(word_chars(ws[i])));
        lemma_fold_step(s, p, u, TopItem::Import(word_chars(ws[i])), p + t.len());
        assert(p + t.len() == longer.len());
        lemma_imports_fold(ws, i + 1, next);
        let rest1 = ws.subrange(i + 1, ws.len() as int).map_values(|w: Seq<u8>| word_chars(w));
        assert(next.imports + rest1 =~= u.imports + rest);
    }
}

proof fn lemma_find_bounds(s: Seq<u8>, p: int, t: Seq<u8>)
    ensures
        find_from(s, p, t) matches Some(i) ==> p <= i && i + t.len() <= s.len(),
    decreases s.len() - p,
{
    if !(p < 0 || p >= s.len() || p + t.len() > s.len()) && !has_tag(s, p, t) {
        lemma_find_bounds(s, p + 1, t);
    }
}

/// A skip unit always moves forward, and stays within the input.
proof fn lemma_skip_one_advances(s: Seq<u8>, p: int)
    requires
        0 <= p,
    ensures
        skip_one(s, p) matches Some(q) ==> p < q <= s.len(),
{
    if 0 <= p < s.len() && is_space_byte(s[p]) {
        lemma_run_bytes(s, p + 1, Run::Space);
    } else {
        lemma_find_bounds(s, p + 2, newline());
        lemma_find_bounds(s, p + 2, star_slash());
    }
}

proof fn lemma_skip_many_bounds(s: Seq<u8>, p: int)
    requires
        0 <= p <= s.len(),
    ensures
        p <= skip_many(s, p) <= s.len(),
    decreases s.len() - p,
{
    lemma_skip_one_advances(s, p);
    if let Some(q) = skip_one(s, p) {
        lemma_skip_many_bounds(s, q);
    }
}

proof fn lemma_class_body_bounds(s: Seq<u8>, p: int, c: ClassModel)
    requires
        0 <= p <= s.len(),
    ensures
        p <= class_body(s, p, c).1 <= s.len(),
    decreases s.len() - p,
{
    if let Some((it, q)) = class_item_at(s, p) {
        if p < q <= s.len() {
            lemma_class_body_bounds(s, q, with_class_item(c, it));
        }
    }
}

/// A class ends after where it starts.
proof fn lemma_class_end(s: Seq<u8>, x: int)
    requires
        0 <= x <= s.len(),
    ensures
        class_at(s, x) matches Some((_, e)) ==> x < e <= s.len(),
{
    if let Some((_, e)) = class_at(s, x) {
        let m = opt_access(s, x);
        assert(x <= m.1 <= s.len());
        let a = skip_many(s, m.1);
        lemma_skip_many_bounds(s, m.1);
        lemma_skip_one_advances(s, a + 5);
        let b = skip_many(s, a + 5);
        lemma_skip_many_bounds(s, a + 5);
        let c = run_end(s, b, Run::Word);
        lemma_run_bytes(s, b, Run::Word);
        let d = skip_many(s, c);
        lemma_skip_many_bounds(s, c);
        let f = skip_many(s, d + 1);
        lemma_skip_many_bounds(s, d + 1);
        let empty = ClassModel {
            name: ascii_text(s, b, c),
            fields: seq![],
            methods: seq![],
            access_modifier: m.0,
            annotations: seq![],
        };
        lemma_class_body_bounds(s, f, empty);
        let g = class_body(s, f, empty).1;
        let h = skip_many(s, g);
        lemma_skip_many_bounds(s, g);
        lemma_skip_many_bounds(s, h + 1);
        lemma_run_bytes(s, skip_many(s, h + 1), Run::Semicolon);
    }
}

/// With no access keyword at either place and the same position after the
/// skip units, the same class is recognized at both.
proof fn lemma_class_same(s: Seq<u8>, p: int, q: int)
    requires
        opt_access(s, p) == (None::<crate::ast::AccessModifier>, p),
        opt_access(s, q) == (None::<crate::ast::AccessModifier>, q),
        skip_many(s, p) == q,
        skip_many(s, q) == q,
    ensures
        class_at(s, p) == class_at(s, q),
{
}

/// From where a skip unit stands, the top level reaches the end of the run
/// of skip units with nothing filed.
#[verifier::rlimit(30)]
proof fn lemma_top_skip(s: Seq<u8>, p: int, u: UnitModel)
    requires
        0 <= p,
    ensures
        unit_from(s, p, u) == unit_from(s, skip_many(s, p), u),
    decreases s.len() - p,
{
    let q = skip_many(s, p);
    lemma_skip_one_advances(s, p);
    if let Some(p1) = skip_one(s, p) {
        assert(q == skip_many(s, p1));
        lemma_top_skip(s, p1, u);
        // what opens at p is whitespace or a comment: no keyword, no `@`
        lemma_no_tag(s, p, keyword_bytes(Keyword::Package), 0);
        lemma_no_tag(s, p, keyword_bytes(Keyword::Import), 0);
        lemma_no_tag(s, p, keyword_bytes(Keyword::Public), 0);
        lemma_no_tag(s, p, keyword_bytes(Keyword::Protected), 0);
        lemma_no_tag(s, p, keyword_bytes(Keyword::Private), 0);
        assert(opt_access(s, p) == (None::<crate::ast::AccessModifier>, p));
        assert(annotation_at(s, p) is None);
        if class_at(s, p) is Some {
            // a class here means `class` right after the skip units, where
            // the same class is recognized
            assert(has_tag(s, q, keyword_bytes(Keyword::Class)));
            lemma_bytes_of(s, q, keyword_bytes(Keyword::Class));
            assert(keyword_bytes(Keyword::Class)[0] == 0x63u8);
            lemma_no_tag(s, q, keyword_bytes(Keyword::Package), 0);
            lemma_no_tag(s, q, keyword_bytes(Keyword::Import), 0);
            lemma_no_tag(s, q, keyword_bytes(Keyword::Public), 0);
            lemma_no_tag(s, q, keyword_bytes(Keyword::Protected), 0);
            lemma_no_tag(s, q, keyword_bytes(Keyword::Private), 0);
            lemma_no_skip(s, q);
            assert(opt_access(s, q) == (None::<crate::ast::AccessModifier>, q));
            lemma_class_same(s, p, q);
            lemma_skip_many_bounds(s, p);
            lemma_class_end(s, q);
            assert(top_item_at(s, q) == top_item_at(s, p));
        } else {
            assert(top_item_at(s, p) == Some((TopItem::Skip, p1)));
        }
    }
}

/// Whitespace and comments where the top level stands change nothing:
/// parsing on from there gives what parsing on from after them gives.
pub proof fn law_top_level_skip_transparent(s: Seq<u8>, p: int, u: UnitModel)
    requires
        0 <= p <= s.len(),
    ensures
        unit_from(s, p, u) == unit_from(s, skip_many(s, p), u),
{
    lemma_top_skip(s, p, u);
}

/// Input left over after the top-level items is never dropped in silence:
/// the parse fails at the first byte left, as invalid unless a comment that
/// is never closed opens there (a stray `}`, say, gives an invalid parse).
pub proof fn law_leftover_input_fails(s: Seq<u8>)
    requires
        s.len() <= usize::MAX,
        unit_from(s, 0, empty_unit()).1 < s.len(),
    ensures
        parse_source(s) is Err,
        parse_source(s)->Err_0.offset == unit_from(s, 0, empty_unit()).1,
        !unclosed_comment(s, unit_from(s, 0, empty_unit()).1) ==> parse_source(s)->Err_0.kind
            == ParseErrorKind::Invalid,
        s[unit_from(s, 0, empty_unit()).1] == 0x7du8 ==> parse_source(s)->Err_0.kind
            == ParseErrorKind::Invalid,
{
    let p = unit_from(s, 0, empty_unit()).1;
    lemma_unit_from_bounds(s, 0, empty_unit());
    if s[p] == 0x7du8 {
        lemma_no_tag(s, p, slash_slash(), 0);
        lemma_no_tag(s, p, slash_star(), 0);
    }
}

proof fn lemma_unit_from_bounds(s: Seq<u8>, p: int, u: UnitModel)
    requires
        0 <= p <= s.len(),
    ensures
        p <= unit_from(s, p, u).1 <= s.len(),
    decreases s.len() - p,
{
    if let Some((it, q)) = top_item_at(s, p) {
        if p < q <= s.len() {
            lemma_unit_from_bounds(s, q, with_top_item(u, it));
        }
    }
}

/// Parsing is a function of the input: two parses of the same bytes give
/// the same outcome, tree or error.
pub proof fn law_parse_deterministic(
    s: Seq<u8>,
    r1: Result<CompilationUnit, ParseError>,
    r2: Result<CompilationUnit, ParseError>,
)
    requires
        outcome(r1) == parse_source(s),
        outcome(r2) == parse_source(s),
    ensures
        outcome(r1) == outcome(r2),
{
}

/// A file that is only `package w;` gives that package and nothing else.
pub proof fn law_package_alone(w: Seq<u8>)
    requires
        is_word_seq(w),
    ensures
        parse_source(decl_text(Keyword::Package, w)) == Ok::<UnitModel, ParseError>(
            UnitModel { package: Some(word_chars(w)), ..empty_unit() },
        ),
{
    let s = decl_text(Keyword::Package, w);
    assert(s.subrange(0, s.len() as int) =~= s);
    lemma_top_decl(s, 0, Keyword::Package, w);
    lemma_nothing_at_end(s);
    let u = with_top_item(empty_unit(), TopItem::Package(word_chars(w)));
    assert(unit_from(s, s.len() as int, u) == (u, s.len() as int));
    assert(unit_from(s, 0, empty_unit()) == unit_from(s, s.len() as int, u));
}

/// A file of import declarations gives one import for each, in source
/// order, and nothing else.
pub proof fn law_imports_in_order(ws: Seq<Seq<u8>>)
    requires
        forall|j: int| 0 <= j < ws.len() ==> is_word_seq(#[trigger] ws[j]),
    ensures
        parse_source(imports_text(ws)) == Ok::<UnitModel, ParseError>(
            UnitModel {
                imports: ws.map_values(|w: Seq<u8>| word_chars(w)),
                ..empty_unit()
            },
        ),
{
    assert(ws.take(0) =~= seq![]);
    lemma_imports_fold(ws, 0, empty_unit());
    assert(ws.subrange(0, ws.len() as int) =~= ws);
    assert(empty_unit().imports + ws.map_values(|w: Seq<u8>| word_chars(w)) =~= ws.map_values(
        |w: Seq<u8>| word_chars(w),
    ));
}

/// A block comment that opens the file and is never closed fails the parse
/// as incomplete, at offset zero.
pub proof fn law_unclosed_block_comment(t: Seq<u8>)
    requires
        forall|i: int| 0 <= i < t.len() - 1 ==> !(t[i] == 0x2au8 && #[trigger] t[i + 1] == 0x2fu8),
    ensures
        parse_source(slash_star() + t) == Err::<UnitModel, ParseError>(
            ParseError { kind: ParseErrorKind::Incomplete, offset: 0 },
        ),
{
    let s = slash_star() + t;
    assert(s[0] == 0x2fu8);
    assert(s[1] == 0x2au8);
    assert forall|i: int| 2 <= i implies !#[trigger] has_tag(s, i, star_slash()) by {
        if has_tag(s, i, star_slash()) {
            assert(s.subrange(i, i + 2)[0] == s[i]);
            assert(s.subrange(i, i + 2)[1] == s[i + 1]);
            assert(s[i] == t[i - 2]);
            assert(s[i + 1] == t[i - 1]);
            let k = i - 2;
            assert(0 <= k < t.len() - 1);
            assert(t[k + 1] == t[i - 1]);
            assert(!(t[k] == 0x2au8 && t[k + 1] == 0x2fu8));
        }
    }
    lemma_find_none(s, 2, star_slash());
    assert(s.subrange(0, 2) =~= slash_star());
    lemma_no_tag(s, 0, slash_slash(), 1);
    assert(skip_one(s, 0) is None);
    lemma_no_tag(s, 0, keyword_bytes(Keyword::Public), 0);
    lemma_no_tag(s, 0, keyword_bytes(Keyword::Protected), 0);
    lemma_no_tag(s, 0, keyword_bytes(Keyword::Private), 0);
    lemma_no_tag(s, 0, keyword_bytes(Keyword::Class), 0);
    lemma_no_tag(s, 0, keyword_bytes(Keyword::Package), 0);
    lemma_no_tag(s, 0, keyword_bytes(Keyword::Import), 0);
    assert(opt_access(s, 0) == (None::<crate::ast::AccessModifier>, 0int));
    assert(class_at(s, 0) is None);
    assert(annotation_at(s, 0) is None);
    assert(top_item_at(s, 0) is None);
    assert(unit_from(s, 0, empty_unit()) == (empty_unit(), 0int));
}

} // verus!
