//! The recognizers, each proved to give what its counterpart in the grammar
//! gives.
use vstd::prelude::*;

use crate::ast::{
    AccessModifier, Annotation, Class, CompilationUnit, Field, FieldType, Import,
    Method, ParseError, ParseErrorKind, UnitModel,
};
use crate::grammar::{
    access_at, annotation_at, byte_at, class_at, class_body, decl_at, field_at,
    field_type_of, find_byte, member_head, method_at, parse_source, top_item_at, unit_from,
    with_class_item, with_top_item, ClassItem, TopItem,
};
use crate::keyword::{keyword_at, keyword_bytes, keyword_len, Keyword};
use crate::lexical::{
    find_exec, lossy_text, run_end_exec, skip_many_exec, skip_one_exec, skip_some_exec,
    unclosed_comment_exec, word_exec, word_text, Run,
};

verus! {

broadcast use vstd::array::group_array_axioms;

/// Whether byte `b` stands at `p`.
pub fn byte_exec(s: &[u8], p: usize, b: u8) -> (r: bool)
    ensures
        r == byte_at(s@, p as int, b),
{
    p < s.len() && s[p] == b
}

/// The first position at or after `p` holding byte `b`.
pub fn find_byte_exec(s: &[u8], p: usize, b: u8) -> (r: Option<usize>)
    requires
        p <= s@.len() <= usize::MAX,
    ensures
        r matches Some(i) ==> find_byte(s@, p as int, b) == Some(i as int) && p <= i < s@.len(),
        r is None ==> find_byte(s@, p as int, b) is None,
{
    let t: [u8; 1] = [b];
    assert(t@ =~= seq![b]);
    find_exec(s, p, t.as_slice())
}

/// A `package` or `import` declaration at `p`, as `decl_at` says.
pub fn decl_exec(s: &[u8], p: usize, k: Keyword) -> (r: Option<(String, usize)>)
    requires
        p <= s@.len() <= usize::MAX,
    ensures
        r matches Some((w, q)) ==> decl_at(s@, p as int, k) == Some((w@, q as int)) && p < q
            <= s@.len(),
        r is None ==> decl_at(s@, p as int, k) is None,
{
    if !keyword_at(s, p, k) {
        return None;
    }
    let a = match skip_some_exec(s, p + keyword_len(k)) {
        Some(a) => a,
        None => return None,
    };
    let b = match word_exec(s, a) {
        Some(b) => b,
        None => return None,
    };
    let c = skip_many_exec(s, b);
    if byte_exec(s, c, 0x3bu8) {
        Some((word_text(s, a, b), c + 1))
    } else {
        None
    }
}

/// An annotation at `p`, as `annotation_at` says.
pub fn annotation_exec(s: &[u8], p: usize) -> (r: Option<(Annotation, usize)>)
    requires
        p <= s@.len() <= usize::MAX,
    ensures
        r matches Some((a, q)) ==> annotation_at(s@, p as int) == Some((a@, q as int)) && p < q
            <= s@.len(),
        r is None ==> annotation_at(s@, p as int) is None,
{
    if !byte_exec(s, p, 0x40u8) {
        return None;
    }
    let b = match word_exec(s, p + 1) {
        Some(b) => b,
        None => return None,
    };
    if !byte_exec(s, b, 0x28u8) {
        return None;
    }
    let c = match find_byte_exec(s, b + 1, 0x29u8) {
        Some(c) => c,
        None => return None,
    };
    let a = Annotation { name: word_text(s, p + 1, b), options: lossy_text(s, b + 1, c) };
    Some((a, c + 1))
}

/// An access keyword at `p`, as `access_at` says.
pub fn access_exec(s: &[u8], p: usize) -> (r: Option<(AccessModifier, usize)>)
    requires
        p <= s@.len() <= usize::MAX,
    ensures
        r matches Some((m, q)) ==> access_at(s@, p as int) == Some((m, q as int)) && p < q
            <= s@.len(),
        r is None ==> access_at(s@, p as int) is None,
{
    if keyword_at(s, p, Keyword::Public) {
        Some((AccessModifier::Public, p + 6))
    } else if keyword_at(s, p, Keyword::Protected) {
        Some((AccessModifier::Protected, p + 9))
    } else if keyword_at(s, p, Keyword::Private) {
        Some((AccessModifier::Private, p + 7))
    } else {
        None
    }
}

/// Whether the bytes from `a` to `b` are exactly keyword `k`.
fn span_is(s: &[u8], a: usize, b: usize, k: Keyword) -> (r: bool)
    requires
        a <= b <= s@.len(),
    ensures
        r == (s@.subrange(a as int, b as int) == keyword_bytes(k)),
{
    let n = keyword_len(k);
    if b - a != n {
        proof {
            if s@.subrange(a as int, b as int) == keyword_bytes(k) {
                assert(s@.subrange(a as int, b as int).len() == n);
            }
        }
        return false;
    }
    keyword_at(s, a, k)
}

/// The type named by the word from `a` to `b`, as `field_type_of` says.
pub fn field_type_exec(s: &[u8], a: usize, b: usize) -> (r: FieldType)
    requires
        crate::lexical::word_at(s@, a as int) == Some(b as int),
        b <= s@.len(),
    ensures
        r@ == field_type_of(s@, a as int, b as int),
{
    if span_is(s, a, b, Keyword::StringType) {
        FieldType::String
    } else if span_is(s, a, b, Keyword::BoxedBoolean) || span_is(s, a, b, Keyword::Boolean) {
        FieldType::Boolean
    } else if span_is(s, a, b, Keyword::Long) || span_is(s, a, b, Keyword::BoxedLong) {
        FieldType::Long
    } else if span_is(s, a, b, Keyword::Int) || span_is(s, a, b, Keyword::Integer) {
        FieldType::Int
    } else if span_is(s, a, b, Keyword::Short) {
        FieldType::Short
    } else {
        FieldType::Type(word_text(s, a, b))
    }
}

/// The head of a field or method at `p`, as `member_head` says.
pub fn member_head_exec(s: &[u8], p: usize) -> (r: Option<
    (Option<AccessModifier>, FieldType, usize, usize),
>)
    requires
        p <= s@.len() <= usize::MAX,
    ensures
        r matches Some((m, t, d, e)) ==> member_head(s@, p as int) == Some(
            (m, t@, d as int, e as int),
        ) && p < d < e <= s@.len() && crate::lexical::word_at(s@, d as int) == Some(e as int),
        r is None ==> member_head(s@, p as int) is None,
{
    let (m, a) = match access_exec(s, p) {
        Some((m, q)) => (Some(m), q),
        None => (None, p),
    };
    let b = match skip_some_exec(s, a) {
        Some(b) => b,
        None => return None,
    };
    let c = match word_exec(s, b) {
        Some(c) => c,
        None => return None,
    };
    let d = match skip_some_exec(s, c) {
        Some(d) => d,
        None => return None,
    };
    let e = match word_exec(s, d) {
        Some(e) => e,
        None => return None,
    };
    let t = field_type_exec(s, b, c);
    Some((m, t, d, e))
}

/// A field at `p`, as `field_at` says.
pub fn field_exec(s: &[u8], p: usize) -> (r: Option<(Field, usize)>)
    requires
        p <= s@.len() <= usize::MAX,
    ensures
        r matches Some((f, q)) ==> field_at(s@, p as int) == Some((f@, q as int)) && p < q
            <= s@.len(),
        r is None ==> field_at(s@, p as int) is None,
{
    let (m, t, d, e) = match member_head_exec(s, p) {
        Some(h) => h,
        None => return None,
    };
    let f = skip_many_exec(s, e);
    if byte_exec(s, f, 0x3bu8) {
        Some((Field { name: word_text(s, d, e), field_type: t, access_modifier: m }, f + 1))
    } else {
        None
    }
}

/// A method at `p`, as `method_at` says.
pub fn method_exec(s: &[u8], p: usize) -> (r: Option<(Method, usize)>)
    requires
        p <= s@.len() <= usize::MAX,
    ensures
        r matches Some((mt, q)) ==> method_at(s@, p as int) == Some((mt@, q as int)) && p < q
            <= s@.len(),
        r is None ==> method_at(s@, p as int) is None,
{
    let (m, t, d, e) = match member_head_exec(s, p) {
        Some(h) => h,
        None => return None,
    };
    if !byte_exec(s, e, 0x28u8) {
        return None;
    }
    let c = match find_byte_exec(s, e + 1, 0x29u8) {
        Some(c) => c,
        None => return None,
    };
    let g = skip_many_exec(s, c + 1);
    if !byte_exec(s, g, 0x7bu8) {
        return None;
    }
    let h = match find_byte_exec(s, g + 1, 0x7du8) {
        Some(h) => h,
        None => return None,
    };
    let mt = Method {
        name: word_text(s, d, e),
        return_type: t,
        arguments: lossy_text(s, e + 1, c),
        access_modifier: m,
    };
    Some((mt, h + 1))
}

/// A member found in a class body.
enum ClassEvent {
    Field(Field),
    Method(Method),
    Annotation(Annotation),
}

impl View for ClassEvent {
    type V = ClassItem;

    closed spec fn view(&self) -> ClassItem {
        match self {
            ClassEvent::Field(f) => ClassItem::Field(f@),
            ClassEvent::Method(m) => ClassItem::Method(m@),
            ClassEvent::Annotation(a) => ClassItem::Annotation(a@),
        }
    }
}

/// Files a member under its class.
fn file_class_item(cls: &mut Class, ev: ClassEvent)
    ensures
        final(cls)@ == with_class_item(old(cls)@, ev@),
{
    match ev {
        ClassEvent::Field(f) => {
            let ghost fv = f@;
            cls.fields.push(f);
            assert(cls@.fields =~= old(cls)@.fields.push(fv));
        },
        ClassEvent::Method(m) => {
            let ghost mv = m@;
            cls.methods.push(m);
            assert(cls@.methods =~= old(cls)@.methods.push(mv));
        },
        ClassEvent::Annotation(a) => {
            let ghost av = a@;
            cls.annotations.push(a);
            assert(cls@.annotations =~= old(cls)@.annotations.push(av));
        },
    }
}

/// A declaration found at the top level of a file.
enum Event {
    Package(String),
    Import(String),
    Class(Class),
    Annotation(Annotation),
}

impl View for Event {
    type V = TopItem;

    closed spec fn view(&self) -> TopItem {
        match self {
            Event::Package(w) => TopItem::Package(w@),
            Event::Import(w) => TopItem::Import(w@),
            Event::Class(c) => TopItem::Class(c@),
            Event::Annotation(a) => TopItem::Annotation(a@),
        }
    }
}

/// Files a top-level declaration into the unit.
fn file_top_item(cu: &mut CompilationUnit, ev: Event)
    ensures
        final(cu)@ == with_top_item(old(cu)@, ev@),
{
    match ev {
        Event::Package(w) => {
            cu.package = Some(w);
        },
        Event::Import(w) => {
            let ghost wv = w@;
            cu.imports.push(Import { path: w });
            assert(cu@.imports =~= old(cu)@.imports.push(wv));
        },
        Event::Class(c) => {
            let ghost cv = c@;
            cu.classes.push(c);
            assert(cu@.classes =~= old(cu)@.classes.push(cv));
        },
        Event::Annotation(a) => {
            let ghost av = a@;
            cu.annotations.push(a);
            assert(cu@.annotations =~= old(cu)@.annotations.push(av));
        },
    }
}

/// What a top-level item adds to the unit; `None` stands for a skip unit.
closed spec fn event_item(ev: Option<Event>) -> TopItem {
    match ev {
        Some(e) => e@,
        None => TopItem::Skip,
    }
}

/// The top-level item at `p`, as `top_item_at` says.
fn top_item_exec(s: &[u8], p: usize) -> (r: Option<(Option<Event>, usize)>)
    requires
        p <= s@.len() <= usize::MAX,
    ensures
        r matches Some((ev, q)) ==> top_item_at(s@, p as int) == Some((event_item(ev), q as int))
            && p < q <= s@.len(),
        r is None ==> top_item_at(s@, p as int) is None,
{
    if let Some((w, q)) = decl_exec(s, p, Keyword::Package) {
        Some((Some(Event::Package(w)), q))
    } else if let Some((w, q)) = decl_exec(s, p, Keyword::Import) {
        Some((Some(Event::Import(w)), q))
    } else if let Some((c, q)) = class_exec(s, p) {
        Some((Some(Event::Class(c)), q))
    } else if let Some((a, q)) = annotation_exec(s, p) {
        Some((Some(Event::Annotation(a)), q))
    } else if let Some(q) = skip_one_exec(s, p) {
        Some((None, q))
    } else {
        None
    }
}

/// The items of a class body from `p` on, filed under `cls`, as
/// `class_body` says.
fn class_body_exec(s: &[u8], p: usize, start: Class) -> (r: (Class, usize))
    requires
        p <= s@.len() <= usize::MAX,
    ensures
        class_body(s@, p as int, start@) == (r.0@, r.1 as int),
        p <= r.1 <= s@.len(),
{
    let mut cls = start;
    let mut i = p;
    loop
        invariant
            p <= i <= s@.len() <= usize::MAX,
            class_body(s@, i as int, cls@) == class_body(s@, p as int, start@),
        decreases s@.len() - i,
    {
        if let Some((f, q)) = field_exec(s, i) {
            file_class_item(&mut cls, ClassEvent::Field(f));
            i = q;
        } else if let Some((m, q)) = method_exec(s, i) {
            file_class_item(&mut cls, ClassEvent::Method(m));
            i = q;
        } else if let Some((a, q)) = annotation_exec(s, i) {
            file_class_item(&mut cls, ClassEvent::Annotation(a));
            i = q;
        } else if let Some(q) = skip_one_exec(s, i) {
            i = q;
        } else {
            return (cls, i);
        }
    }
}

/// A class at `p`, as `class_at` says.
pub fn class_exec(s: &[u8], p: usize) -> (r: Option<(Class, usize)>)
    requires
        p <= s@.len() <= usize::MAX,
    ensures
        r matches Some((c, q)) ==> class_at(s@, p as int) == Some((c@, q as int)) && p < q
            <= s@.len(),
        r is None ==> class_at(s@, p as int) is None,
{
    let (m, a0) = match access_exec(s, p) {
        Some((m, q)) => (Some(m), q),
        None => (None, p),
    };
    let a = skip_many_exec(s, a0);
    if !keyword_at(s, a, Keyword::Class) {
        return None;
    }
    let b = match skip_some_exec(s, a + 5) {
        Some(b) => b,
        None => return None,
    };
    let c = match word_exec(s, b) {
        Some(c) => c,
        None => return None,
    };
    let d = skip_many_exec(s, c);
    if !byte_exec(s, d, 0x7bu8) {
        return None;
    }
    let empty = Class {
        name: word_text(s, b, c),
        fields: Vec::new(),
        methods: Vec::new(),
        access_modifier: m,
        annotations: Vec::new(),
    };
    assert(empty@.fields =~= seq![]);
    assert(empty@.methods =~= seq![]);
    assert(empty@.annotations =~= seq![]);
    let f = skip_many_exec(s, d + 1);
    let (cls, g) = class_body_exec(s, f, empty);
    let e = skip_many_exec(s, g);
    if !byte_exec(s, e, 0x7du8) {
        return None;
    }
    let h = skip_many_exec(s, e + 1);
    let end = run_end_exec(s, h, Run::Semicolon);
    Some((cls, end))
}

/// The outcome of a parse, over the model.
pub open spec fn outcome(r: Result<CompilationUnit, ParseError>) -> Result<UnitModel, ParseError> {
    match r {
        Ok(cu) => Ok(cu@),
        Err(e) => Err(e),
    }
}

impl CompilationUnit {
    /// Parses a whole source file. It succeeds exactly when the top-level
    /// items (package and import declarations, classes, annotations,
    /// whitespace and comments) take up the entire input.
    pub fn parse(file: &[u8]) -> (r: Result<CompilationUnit, ParseError>)
        ensures
            outcome(r) == parse_source(file@),
    {
        let s = file;
        let len = s.len();
        let mut cu = CompilationUnit::new();
        let mut i: usize = 0;
        loop
            invariant
                i <= s@.len() <= usize::MAX,
                unit_from(s@, i as int, cu@) == unit_from(s@, 0, crate::ast::empty_unit()),
            ensures
                i <= s@.len(),
                unit_from(s@, i as int, cu@) == unit_from(s@, 0, crate::ast::empty_unit()),
                top_item_at(s@, i as int) is None,
            decreases s@.len() - i,
        {
            match top_item_exec(s, i) {
                Some((Some(ev), q)) => {
                    file_top_item(&mut cu, ev);
                    i = q;
                },
                Some((None, q)) => {
                    i = q;
                },
                None => {
                    break;
                },
            }
        }
        assert(unit_from(s@, i as int, cu@) == (cu@, i as int));
        if i == len {
            Ok(cu)
        } else {
            let kind = if unclosed_comment_exec(s, i) {
                ParseErrorKind::Incomplete
            } else {
                ParseErrorKind::Invalid
            };
            Err(ParseError { kind, offset: i })
        }
    }
}

} // verus!
