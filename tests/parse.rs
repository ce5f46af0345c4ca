use java_parser::{
    AccessModifier, Annotation, Class, CompilationUnit, Field, FieldType, Import, Method,
    ParseError, ParseErrorKind,
};

fn field(name: &str, field_type: FieldType, access_modifier: Option<AccessModifier>) -> Field {
    Field { name: name.to_string(), field_type, access_modifier }
}

fn empty_class(name: &str) -> Class {
    Class {
        name: name.to_string(),
        fields: Vec::new(),
        methods: Vec::new(),
        access_modifier: None,
        annotations: Vec::new(),
    }
}

#[test]
fn new_unit_is_empty() {
    let cu = CompilationUnit::new();
    assert_eq!(cu.package, None);
    assert!(cu.imports.is_empty());
    assert!(cu.classes.is_empty());
    assert!(cu.annotations.is_empty());
}

#[test]
fn package_only() {
    let cu = CompilationUnit::parse(b"package a.b.c;").unwrap();
    assert_eq!(cu.package, Some("a.b.c".to_string()));
    assert!(cu.imports.is_empty());
    assert!(cu.classes.is_empty());
    assert!(cu.annotations.is_empty());
}

#[test]
fn package_with_space_before_semicolon() {
    let cu = CompilationUnit::parse(b"package a.b.c ;\n").unwrap();
    assert_eq!(cu.package, Some("a.b.c".to_string()));
}

#[test]
fn last_package_wins() {
    let cu = CompilationUnit::parse(b"package a; package b;").unwrap();
    assert_eq!(cu.package, Some("b".to_string()));
}

#[test]
fn imports_in_source_order() {
    let cu = CompilationUnit::parse(b"import a.B;import c.D;\nimport e;").unwrap();
    let paths: Vec<Import> = vec![
        Import { path: "a.B".to_string() },
        Import { path: "c.D".to_string() },
        Import { path: "e".to_string() },
    ];
    assert_eq!(cu.imports, paths);
    assert_eq!(cu.package, None);
}

#[test]
fn no_imports() {
    let cu = CompilationUnit::parse(b"").unwrap();
    assert_eq!(cu, CompilationUnit::new());
}

#[test]
fn private_int_field() {
    let cu = CompilationUnit::parse(b"class Foo { private int x; }").unwrap();
    let mut expected = empty_class("Foo");
    expected.fields.push(field("x", FieldType::Int, Some(AccessModifier::Private)));
    assert_eq!(cu.classes, vec![expected]);
    assert!(cu.annotations.is_empty());
}

#[test]
fn public_string_method_drops_body() {
    let cu = CompilationUnit::parse(b"class Foo { public String bar() { return null; } }").unwrap();
    assert_eq!(cu.classes.len(), 1);
    let class = &cu.classes[0];
    assert!(class.fields.is_empty());
    assert_eq!(
        class.methods,
        vec![Method {
            name: "bar".to_string(),
            return_type: FieldType::String,
            arguments: "".to_string(),
            access_modifier: Some(AccessModifier::Public),
        }]
    );
    assert!(!format!("{:?}", cu).contains("null"));
}

#[test]
fn file_annotation_before_class() {
    let cu = CompilationUnit::parse(b"@Deprecated(since=\"1.0\") class Foo {}").unwrap();
    assert_eq!(
        cu.annotations,
        vec![Annotation { name: "Deprecated".to_string(), options: "since=\"1.0\"".to_string() }]
    );
    assert_eq!(cu.classes, vec![empty_class("Foo")]);
}

#[test]
fn parsing_twice_gives_equal_trees() {
    let src: &[u8] = b"package p;\nimport q.R;\n@A(x) public class C { protected long n; Foo f() {} }";
    assert_eq!(CompilationUnit::parse(src), CompilationUnit::parse(src));
}

#[test]
fn stray_closing_brace_is_invalid() {
    let r = CompilationUnit::parse(b"class Foo {} }");
    assert_eq!(r, Err(ParseError { kind: ParseErrorKind::Invalid, offset: 13 }));
}

#[test]
fn unterminated_block_comment_is_incomplete() {
    let r = CompilationUnit::parse(b"/* abc");
    assert_eq!(r, Err(ParseError { kind: ParseErrorKind::Incomplete, offset: 0 }));
}

#[test]
fn unterminated_line_comment_is_incomplete() {
    let r = CompilationUnit::parse(b"package a;\n// no newline");
    assert_eq!(r, Err(ParseError { kind: ParseErrorKind::Incomplete, offset: 11 }));
}

#[test]
fn garbage_is_invalid() {
    let r = CompilationUnit::parse(b"import a;\nfoo");
    assert_eq!(r, Err(ParseError { kind: ParseErrorKind::Invalid, offset: 10 }));
}

#[test]
fn whitespace_and_comments_are_transparent() {
    let plain = CompilationUnit::parse(b"package a; import b; class Foo { private int x; }").unwrap();
    let noisy = CompilationUnit::parse(
        b"/* head */\n\tpackage  /* p */ a // tail\n;\r\n// line\nimport\tb  ;  class /**/ Foo\n{ private /* m */ int\n x /* n */ ; /* end */ }\n",
    )
    .unwrap();
    assert_eq!(plain, noisy);
}

#[test]
fn block_comments_do_not_nest() {
    let cu = CompilationUnit::parse(b"/* a /* b */ package c;").unwrap();
    assert_eq!(cu.package, Some("c".to_string()));
}

#[test]
fn type_keywords_and_named_types() {
    let cu = CompilationUnit::parse(
        b"class T { private Boolean a; private boolean b; private long c; private Long d; private Integer e; private short f; private Strings g; private java.util.List h; }",
    )
    .unwrap();
    let types: Vec<&FieldType> = cu.classes[0].fields.iter().map(|f| &f.field_type).collect();
    assert_eq!(
        types,
        vec![
            &FieldType::Boolean,
            &FieldType::Boolean,
            &FieldType::Long,
            &FieldType::Long,
            &FieldType::Int,
            &FieldType::Short,
            &FieldType::Type("Strings".to_string()),
            &FieldType::Type("java.util.List".to_string()),
        ]
    );
}

#[test]
fn package_private_members_after_the_first() {
    let cu = CompilationUnit::parse(b"class Foo { private int x; String y; }").unwrap();
    assert_eq!(
        cu.classes[0].fields,
        vec![
            field("x", FieldType::Int, Some(AccessModifier::Private)),
            field("y", FieldType::String, None),
        ]
    );
}

#[test]
fn member_right_after_brace_needs_a_skip_unit() {
    let r = CompilationUnit::parse(b"class Foo {int x;}");
    assert_eq!(r, Err(ParseError { kind: ParseErrorKind::Invalid, offset: 0 }));
}

#[test]
fn class_modifiers_annotations_and_semicolons() {
    let cu = CompilationUnit::parse(
        b"protected class A { @Inject() private Foo foo; public void run(int a, String b) { go(); } } ;; class B {}",
    )
    .unwrap();
    assert_eq!(cu.classes.len(), 2);
    let a = &cu.classes[0];
    assert_eq!(a.access_modifier, Some(AccessModifier::Protected));
    assert_eq!(a.annotations, vec![Annotation { name: "Inject".to_string(), options: "".to_string() }]);
    assert_eq!(a.fields, vec![field("foo", FieldType::Type("Foo".to_string()), Some(AccessModifier::Private))]);
    assert_eq!(a.methods.len(), 1);
    assert_eq!(a.methods[0].name, "run");
    assert_eq!(a.methods[0].return_type, FieldType::Type("void".to_string()));
    assert_eq!(a.methods[0].arguments, "int a, String b");
    assert_eq!(cu.classes[1], empty_class("B"));
}

#[test]
fn invalid_bytes_in_options_are_replaced() {
    let cu = CompilationUnit::parse(b"@A(x\xffy)").unwrap();
    assert_eq!(cu.annotations[0].options, "x\u{FFFD}y");
}

#[test]
fn annotation_needs_parentheses() {
    let r = CompilationUnit::parse(b"@Override class A {}");
    assert_eq!(r, Err(ParseError { kind: ParseErrorKind::Invalid, offset: 0 }));
}

#[test]
fn import_needs_a_skip_unit_after_keyword() {
    let r = CompilationUnit::parse(b"importa;");
    assert_eq!(r, Err(ParseError { kind: ParseErrorKind::Invalid, offset: 0 }));
}

#[test]
fn leading_noise_before_public_class() {
    let plain = CompilationUnit::parse(b"public class A {}").unwrap();
    let noisy = CompilationUnit::parse(b"\n// c\n  /* d */ public class A {}").unwrap();
    assert_eq!(plain, noisy);
    assert_eq!(plain.classes[0].access_modifier, Some(AccessModifier::Public));
}

#[test]
fn unclosed_block_comment_after_a_declaration() {
    let r = CompilationUnit::parse(b"package a; /* x");
    assert_eq!(r, Err(ParseError { kind: ParseErrorKind::Incomplete, offset: 11 }));
}

#[test]
fn unclosed_comment_inside_a_class_is_invalid() {
    let r = CompilationUnit::parse(b"class A { /* x");
    assert_eq!(r, Err(ParseError { kind: ParseErrorKind::Invalid, offset: 0 }));
}

#[test]
fn comment_closer_needs_its_own_bytes() {
    let r = CompilationUnit::parse(b"/*/");
    assert_eq!(r, Err(ParseError { kind: ParseErrorKind::Incomplete, offset: 0 }));
}

#[test]
fn word_bytes() {
    assert!(java_parser::is_word(b'a'));
    assert!(java_parser::is_word(b'Z'));
    assert!(java_parser::is_word(b'7'));
    assert!(java_parser::is_word(b'.'));
    assert!(!java_parser::is_word(b'*'));
    assert!(!java_parser::is_word(b'_'));
    assert!(!java_parser::is_word(b' '));
}
