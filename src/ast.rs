//! The syntax tree and its mathematical model.
use vstd::prelude::*;

verus! {

/// The access modifier written before a class or a member. A declaration
/// without one is package-private and carries `None`.
#[derive(Debug, Clone, Copy, PartialEq, Eq, Structural)]
pub enum AccessModifier {
    Public,
    Protected,
    Private,
}

/// What a field's type, or a method's return type, looks like to the model.
pub ghost enum FieldTypeModel {
    String,
    Boolean,
    Long,
    Int,
    Short,
    Type(Seq<char>),
}

/// The type of a field or the return type of a method.
#[derive(Debug, PartialEq, Eq)]
pub enum FieldType {
    String,
    Boolean,
    Long,
    Int,
    Short,
    Type(String),
}

impl View for FieldType {
    type V = FieldTypeModel;

    open spec fn view(&self) -> FieldTypeModel {
        match self {
            FieldType::String => FieldTypeModel::String,
            FieldType::Boolean => FieldTypeModel::Boolean,
            FieldType::Long => FieldTypeModel::Long,
            FieldType::Int => FieldTypeModel::Int,
            FieldType::Short => FieldTypeModel::Short,
            FieldType::Type(name) => FieldTypeModel::Type(name@),
        }
    }
}

pub ghost struct AnnotationModel {
    pub name: Seq<char>,
    pub options: Seq<char>,
}

/// An annotation `@name(options)`; `options` is the raw text between the
/// parentheses.
#[derive(Debug, PartialEq, Eq)]
pub struct Annotation {
    pub name: String,
    pub options: String,
}

impl View for Annotation {
    type V = AnnotationModel;

    open spec fn view(&self) -> AnnotationModel {
        AnnotationModel { name: self.name@, options: self.options@ }
    }
}

pub ghost struct FieldModel {
    pub name: Seq<char>,
    pub field_type: FieldTypeModel,
    pub access_modifier: Option<AccessModifier>,
}

/// A field declaration of a class.
#[derive(Debug, PartialEq, Eq)]
pub struct Field {
    pub name: String,
    pub field_type: FieldType,
    pub access_modifier: Option<AccessModifier>,
}

impl View for Field {
    type V = FieldModel;

    open spec fn view(&self) -> FieldModel {
        FieldModel {
            name: self.name@,
            field_type: self.field_type@,
            access_modifier: self.access_modifier,
        }
    }
}

pub ghost struct MethodModel {
    pub name: Seq<char>,
    pub return_type: FieldTypeModel,
    pub arguments: Seq<char>,
    pub access_modifier: Option<AccessModifier>,
}

/// A method declaration of a class. `arguments` is the raw text between the
/// parentheses; the body is recognised and dropped.
#[derive(Debug, PartialEq, Eq)]
pub struct Method {
    pub name: String,
    pub return_type: FieldType,
    pub arguments: String,
    pub access_modifier: Option<AccessModifier>,
}

impl View for Method {
    type V = MethodModel;

    open spec fn view(&self) -> MethodModel {
        MethodModel {
            name: self.name@,
            return_type: self.return_type@,
            arguments: self.arguments@,
            access_modifier: self.access_modifier,
        }
    }
}

pub ghost struct ClassModel {
    pub name: Seq<char>,
    pub fields: Seq<FieldModel>,
    pub methods: Seq<MethodModel>,
    pub access_modifier: Option<AccessModifier>,
    pub annotations: Seq<AnnotationModel>,
}

/// A top-level class with the members found between its braces, in source
/// order.
#[derive(Debug, PartialEq, Eq)]
pub struct Class {
    pub name: String,
    pub fields: Vec<Field>,
    pub methods: Vec<Method>,
    pub access_modifier: Option<AccessModifier>,
    pub annotations: Vec<Annotation>,
}

impl View for Class {
    type V = ClassModel;

    open spec fn view(&self) -> ClassModel {
        ClassModel {
            name: self.name@,
            fields: self.fields@.map_values(|f: Field| f@),
            methods: self.methods@.map_values(|m: Method| m@),
            access_modifier: self.access_modifier,
            annotations: self.annotations@.map_values(|a: Annotation| a@),
        }
    }
}

/// An import declaration; `path` is the dotted name.
#[derive(Debug, PartialEq, Eq)]
pub struct Import {
    pub path: String,
}

impl View for Import {
    type V = Seq<char>;

    open spec fn view(&self) -> Seq<char> {
        self.path@
    }
}

pub ghost struct UnitModel {
    pub package: Option<Seq<char>>,
    pub imports: Seq<Seq<char>>,
    pub classes: Seq<ClassModel>,
    pub annotations: Seq<AnnotationModel>,
}

/// The empty unit: no package, no imports, no classes, no annotations.
pub open spec fn empty_unit() -> UnitModel {
    UnitModel { package: None, imports: seq![], classes: seq![], annotations: seq![] }
}

/// One parsed source file.
#[derive(Debug, PartialEq, Eq)]
pub struct CompilationUnit {
    pub package: Option<String>,
    pub imports: Vec<Import>,
    pub classes: Vec<Class>,
    pub annotations: Vec<Annotation>,
}

impl View for CompilationUnit {
    type V = UnitModel;

    open spec fn view(&self) -> UnitModel {
        UnitModel {
            package: match self.package {
                Some(p) => Some(p@),
                None => None,
            },
            imports: self.imports@.map_values(|i: Import| i@),
            classes: self.classes@.map_values(|c: Class| c@),
            annotations: self.annotations@.map_values(|a: Annotation| a@),
        }
    }
}

impl CompilationUnit {
    /// An empty unit.
    pub fn new() -> (r: Self)
        ensures
            r@ == empty_unit(),
    {
        let r = CompilationUnit {
            package: None,
            imports: Vec::new(),
            classes: Vec::new(),
            annotations: Vec::new(),
        };
        assert(r@.imports =~= seq![]);
        assert(r@.classes =~= seq![]);
        assert(r@.annotations =~= seq![]);
        r
    }
}

} // verus!

verus! {

/// How a parse failed.
#[derive(Debug, Clone, Copy, PartialEq, Eq, Structural)]
pub enum ParseErrorKind {
    /// The input ends inside a comment that opens where parsing stopped.
    Incomplete,
    /// Nothing the grammar allows matches at the offset.
    Invalid,
}

/// A failed parse: its kind and the byte offset where parsing stopped.
#[derive(Debug, Clone, Copy, PartialEq, Eq, Structural)]
pub struct ParseError {
    pub kind: ParseErrorKind,
    pub offset: usize,
}

} // verus!
