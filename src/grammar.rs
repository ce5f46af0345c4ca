//! The grammar, stated over byte sequences. Each recognizer gives the value
//! it recognizes at a position and the position after it, or `None`.
use vstd::prelude::*;

use crate::ast::{
    empty_unit, ParseError, ParseErrorKind, AccessModifier, AnnotationModel, ClassModel, FieldModel, FieldTypeModel, MethodModel, UnitModel,
};
use crate::keyword::{keyword_bytes, Keyword};
use crate::lexical::{
    ascii_text, find_from, has_tag, lossy_of, run_end, skip_many, skip_one, skip_some, unclosed_comment, word_at, Run,
};

verus! {

/// Byte `b` stands at `p`.
pub open spec fn byte_at(s: Seq<u8>, p: int, b: u8) -> bool {
    0 <= p < s.len() && s[p] == b
}

/// The first position at or after `p` holding byte `b`.
pub open spec fn find_byte(s: Seq<u8>, p: int, b: u8) -> Option<int> {
    find_from(s, p, seq![b])
}

/// The raw text between `a` and `b`, decoded leniently.
pub open spec fn raw_text(s: Seq<u8>, a: int, b: int) -> Seq<char> {
    lossy_of(s.subrange(a, b))
}

/// `package` or `import` (as `k` says), one or more skip units, a word,
/// skip units, `;`. Gives the word.
pub open spec fn decl_at(s: Seq<u8>, p: int, k: Keyword) -> Option<(Seq<char>, int)> {
    if !has_tag(s, p, keyword_bytes(k)) {
        None
    } else {
        match skip_some(s, p + keyword_bytes(k).len()) {
            None => None,
            Some(a) => match word_at(s, a) {
                None => None,
                Some(b) => {
                    let c = skip_many(s, b);
                    if byte_at(s, c, 0x3bu8) {
                        Some((ascii_text(s, a, b), c + 1))
                    } else {
                        None
                    }
                },
            },
        }
    }
}

/// `@`, a word, `(`, raw text up to the first `)`, `)`.
pub open spec fn annotation_at(s: Seq<u8>, p: int) -> Option<(AnnotationModel, int)> {
    if !byte_at(s, p, 0x40u8) {
        None
    } else {
        match word_at(s, p + 1) {
            None => None,
            Some(b) => if !byte_at(s, b, 0x28u8) {
                None
            } else {
                match find_byte(s, b + 1, 0x29u8) {
                    None => None,
                    Some(c) => Some(
                        (
                            AnnotationModel {
                                name: ascii_text(s, p + 1, b),
                                options: raw_text(s, b + 1, c),
                            },
                            c + 1,
                        ),
                    ),
                }
            },
        }
    }
}

/// One of the three access keywords at `p`.
pub open spec fn access_at(s: Seq<u8>, p: int) -> Option<(AccessModifier, int)> {
    if has_tag(s, p, keyword_bytes(Keyword::Public)) {
        Some((AccessModifier::Public, p + 6))
    } else if has_tag(s, p, keyword_bytes(Keyword::Protected)) {
        Some((AccessModifier::Protected, p + 9))
    } else if has_tag(s, p, keyword_bytes(Keyword::Private)) {
        Some((AccessModifier::Private, p + 7))
    } else {
        None
    }
}

/// An optional access keyword at `p`, and the position after it.
pub open spec fn opt_access(s: Seq<u8>, p: int) -> (Option<AccessModifier>, int) {
    match access_at(s, p) {
        Some((m, q)) => (Some(m), q),
        None => (None, p),
    }
}

/// The type that the word from `a` to `b` names: a type keyword when the
/// word is exactly one, else a named type.
pub open spec fn field_type_of(s: Seq<u8>, a: int, b: int) -> FieldTypeModel {
    let w = s.subrange(a, b);
    if w == keyword_bytes(Keyword::StringType) {
        FieldTypeModel::String
    } else if w == keyword_bytes(Keyword::BoxedBoolean) || w == keyword_bytes(Keyword::Boolean) {
        FieldTypeModel::Boolean
    } else if w == keyword_bytes(Keyword::Long) || w == keyword_bytes(Keyword::BoxedLong) {
        FieldTypeModel::Long
    } else if w == keyword_bytes(Keyword::Int) || w == keyword_bytes(Keyword::Integer) {
        FieldTypeModel::Int
    } else if w == keyword_bytes(Keyword::Short) {
        FieldTypeModel::Short
    } else {
        FieldTypeModel::Type(ascii_text(s, a, b))
    }
}

/// What fields and methods start with: an optional access keyword, one or
/// more skip units, a type word, one or more skip units, a name word. Gives
/// the modifier, the type and where the name starts and ends.
pub open spec fn member_head(s: Seq<u8>, p: int) -> Option<
    (Option<AccessModifier>, FieldTypeModel, int, int),
> {
    let m = opt_access(s, p);
    match skip_some(s, m.1) {
        None => None,
        Some(b) => match word_at(s, b) {
            None => None,
            Some(c) => match skip_some(s, c) {
                None => None,
                Some(d) => match word_at(s, d) {
                    None => None,
                    Some(e) => Some((m.0, field_type_of(s, b, c), d, e)),
                },
            },
        },
    }
}

/// A member head, skip units, `;`.
pub open spec fn field_at(s: Seq<u8>, p: int) -> Option<(FieldModel, int)> {
    match member_head(s, p) {
        None => None,
        Some((m, t, d, e)) => {
            let f = skip_many(s, e);
            if byte_at(s, f, 0x3bu8) {
                Some((FieldModel { name: ascii_text(s, d, e), field_type: t, access_modifier: m }, f + 1))
            } else {
                None
            }
        },
    }
}

/// A member head, `(`, raw arguments up to the first `)`, `)`, skip units,
/// `{`, a body up to the first `}`, `}`. The body is dropped.
pub open spec fn method_at(s: Seq<u8>, p: int) -> Option<(MethodModel, int)> {
    match member_head(s, p) {
        None => None,
        Some((m, t, d, e)) => if !byte_at(s, e, 0x28u8) {
            None
        } else {
            match find_byte(s, e + 1, 0x29u8) {
                None => None,
                Some(c) => {
                    let g = skip_many(s, c + 1);
                    if !byte_at(s, g, 0x7bu8) {
                        None
                    } else {
                        match find_byte(s, g + 1, 0x7du8) {
                            None => None,
                            Some(h) => Some(
                                (
                                    MethodModel {
                                        name: ascii_text(s, d, e),
                                        return_type: t,
                                        arguments: raw_text(s, e + 1, c),
                                        access_modifier: m,
                                    },
                                    h + 1,
                                ),
                            ),
                        }
                    }
                },
            }
        },
    }
}

/// One thing found in a class body.
pub ghost enum ClassItem {
    Field(FieldModel),
    Method(MethodModel),
    Annotation(AnnotationModel),
    Skip,
}

/// The first of field, method, annotation and skip unit that matches at `p`.
pub open spec fn class_item_at(s: Seq<u8>, p: int) -> Option<(ClassItem, int)> {
    match field_at(s, p) {
        Some((f, q)) => Some((ClassItem::Field(f), q)),
        None => match method_at(s, p) {
            Some((m, q)) => Some((ClassItem::Method(m), q)),
            None => match annotation_at(s, p) {
                Some((a, q)) => Some((ClassItem::Annotation(a), q)),
                None => match skip_one(s, p) {
                    Some(q) => Some((ClassItem::Skip, q)),
                    None => None,
                },
            },
        },
    }
}

/// Files a class item under its class.
pub open spec fn with_class_item(c: ClassModel, it: ClassItem) -> ClassModel {
    match it {
        ClassItem::Field(f) => ClassModel { fields: c.fields.push(f), ..c },
        ClassItem::Method(m) => ClassModel { methods: c.methods.push(m), ..c },
        ClassItem::Annotation(a) => ClassModel { annotations: c.annotations.push(a), ..c },
        ClassItem::Skip => c,
    }
}

/// Class items from `p` on, as long as one matches, filed under `c`. Gives
/// the class and the position where no item matched.
pub open spec fn class_body(s: Seq<u8>, p: int, c: ClassModel) -> (ClassModel, int)
    decreases s.len() - p,
{
    match class_item_at(s, p) {
        Some((it, q)) => if p < q <= s.len() {
            class_body(s, q, with_class_item(c, it))
        } else {
            (c, p)
        },
        None => (c, p),
    }
}

/// An optional access keyword, skip units, `class`, one or more skip units,
/// the name, skip units, `{`, skip units, class items, skip units, `}`, skip
/// units and any number of `;`.
pub open spec fn class_at(s: Seq<u8>, p: int) -> Option<(ClassModel, int)> {
    let m = opt_access(s, p);
    let a = skip_many(s, m.1);
    if !has_tag(s, a, keyword_bytes(Keyword::Class)) {
        None
    } else {
        match skip_some(s, a + 5) {
            None => None,
            Some(b) => match word_at(s, b) {
                None => None,
                Some(c) => {
                    let d = skip_many(s, c);
                    if !byte_at(s, d, 0x7bu8) {
                        None
                    } else {
                        let empty = ClassModel {
                            name: ascii_text(s, b, c),
                            fields: seq![],
                            methods: seq![],
                            access_modifier: m.0,
                            annotations: seq![],
                        };
                        let body = class_body(s, skip_many(s, d + 1), empty);
                        let e = skip_many(s, body.1);
                        if !byte_at(s, e, 0x7du8) {
                            None
                        } else {
                            Some((body.0, run_end(s, skip_many(s, e + 1), Run::Semicolon)))
                        }
                    }
                },
            },
        }
    }
}

/// One thing found at the top level of a file.
pub ghost enum TopItem {
    Package(Seq<char>),
    Import(Seq<char>),
    Class(ClassModel),
    Annotation(AnnotationModel),
    Skip,
}

/// The first of package, import, class, annotation and skip unit that
/// matches at `p`.
pub open spec fn top_item_at(s: Seq<u8>, p: int) -> Option<(TopItem, int)> {
    match decl_at(s, p, Keyword::Package) {
        Some((w, q)) => Some((TopItem::Package(w), q)),
        None => match decl_at(s, p, Keyword::Import) {
            Some((w, q)) => Some((TopItem::Import(w), q)),
            None => match class_at(s, p) {
                Some((c, q)) => Some((TopItem::Class(c), q)),
                None => match annotation_at(s, p) {
                    Some((a, q)) => Some((TopItem::Annotation(a), q)),
                    None => match skip_one(s, p) {
                        Some(q) => Some((TopItem::Skip, q)),
                        None => None,
                    },
                },
            },
        },
    }
}

/// Files a top-level item: a package replaces the one before it, the rest
/// are appended.
pub open spec fn with_top_item(u: UnitModel, it: TopItem) -> UnitModel {
    match it {
        TopItem::Package(w) => UnitModel { package: Some(w), ..u },
        TopItem::Import(w) => UnitModel { imports: u.imports.push(w), ..u },
        TopItem::Class(c) => UnitModel { classes: u.classes.push(c), ..u },
        TopItem::Annotation(a) => UnitModel { annotations: u.annotations.push(a), ..u },
        TopItem::Skip => u,
    }
}

/// Top-level items from `p` on, as long as one matches, filed into `u`.
pub open spec fn unit_from(s: Seq<u8>, p: int, u: UnitModel) -> (UnitModel, int)
    decreases s.len() - p,
{
    match top_item_at(s, p) {
        Some((it, q)) => if p < q <= s.len() {
            unit_from(s, q, with_top_item(u, it))
        } else {
            (u, p)
        },
        None => (u, p),
    }
}

} // verus!

verus! {

/// The whole input as one compilation unit: the top-level items, which must
/// take up all of it. Where they stop short, the error gives that offset, and
/// is `Incomplete` when an unclosed comment opens there.
pub open spec fn parse_source(s: Seq<u8>) -> Result<UnitModel, ParseError> {
    let r = unit_from(s, 0, empty_unit());
    if r.1 == s.len() {
        Ok(r.0)
    } else {
        Err(
            ParseError {
                kind: if unclosed_comment(s, r.1) {
                    ParseErrorKind::Incomplete
                } else {
                    ParseErrorKind::Invalid
                },
                offset: r.1 as usize,
            },
        )
    }
}

} // verus!
