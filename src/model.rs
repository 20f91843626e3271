use vstd::prelude::*;

verus! {

/// A source type expression.
#[derive(Debug)]
pub enum TypeExpr {
    /// A path type, by its last segment: the identifier, and the first
    /// generic argument when that argument is itself a type.
    Path { ident: String, first_arg: Option<Box<TypeExpr>> },
    /// A reference; only the referent matters.
    Reference(Box<TypeExpr>),
    /// A tuple of zero or more elements.
    Tuple(Vec<TypeExpr>),
    /// Any other shape.
    Other,
}

/// An attribute: its path when that path is a single identifier, and its
/// debug rendering, where its arguments can be read.
#[derive(Debug)]
pub struct Attr {
    pub ident: Option<String>,
    pub debug: String,
}

/// A named field of a record.
#[derive(Debug)]
pub struct NamedField {
    pub name: String,
    pub ty: TypeExpr,
}

/// The fields of a struct or of an enum case.
#[derive(Debug)]
pub enum Fields {
    Named(Vec<NamedField>),
    Unnamed(Vec<TypeExpr>),
    Unit,
}

#[derive(Debug)]
pub struct StructDecl {
    pub name: String,
    pub fields: Fields,
}

#[derive(Debug)]
pub struct EnumCase {
    pub name: String,
    pub fields: Fields,
}

#[derive(Debug)]
pub struct EnumDecl {
    pub name: String,
    pub cases: Vec<EnumCase>,
}

/// A parameter of a method.
#[derive(Debug)]
pub enum Param {
    /// The receiver (`self`, `&self`, `&mut self`, ...).
    Receiver,
    /// A typed parameter; `binding` is its name when the pattern is a plain
    /// identifier.
    Typed { binding: Option<String>, ty: TypeExpr },
}

/// A method of an implementation block.
#[derive(Debug)]
pub struct Method {
    pub name: String,
    pub attrs: Vec<Attr>,
    pub params: Vec<Param>,
    /// The declared return type; `None` for none.
    pub output: Option<TypeExpr>,
}

/// An implementation block with its methods.
#[derive(Debug)]
pub struct ImplBlock {
    pub self_ty: TypeExpr,
    pub attrs: Vec<Attr>,
    pub methods: Vec<Method>,
}

/// A top-level item of a source module.
#[derive(Debug)]
pub enum Item {
    Struct(StructDecl),
    Enum(EnumDecl),
    Impl(ImplBlock),
    Other,
}

/// A parsed source module.
#[derive(Debug)]
pub struct SourceFile {
    pub items: Vec<Item>,
}

impl TypeExpr {
    /// The identifier of a path type.
    pub open spec fn path_ident_spec(&self) -> Option<Seq<char>> {
        match self {
            TypeExpr::Path { ident, .. } => Some(ident@),
            _ => None,
        }
    }

    /// The identifier of a path type; `None` for other shapes.
    pub fn path_ident(&self) -> (r: Option<String>)
        ensures
            r matches Some(s) ==> self.path_ident_spec() == Some(s@),
            r is None ==> self.path_ident_spec() is None,
    {
        match self {
            TypeExpr::Path { ident, .. } => Some(ident.clone()),
            _ => None,
        }
    }
}

} // verus!
