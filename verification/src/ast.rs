//! The shapes of C syntax that the analysis reads.
//!
//! This is the checker's own model of a parsed translation unit: just the
//! node kinds and sub-parts the analysis consults, each carrying the byte
//! offset of the construct in the original source so diagnostics can be
//! mapped back to lines.  The surrounding program converts a parser's tree
//! into this model; node kinds the analysis does not read collapse into the
//! `Other` variants.

use vstd::prelude::*;

verus! {

/// The unary operators the analysis distinguishes.
pub enum CUnaryOp {
    /// `&x`
    Address,
    /// `*p`
    Indirection,
    /// Any other unary operator.
    OtherUnary,
}

/// The binary operators the analysis distinguishes.
pub enum CBinaryOp {
    /// Plain assignment `lhs = rhs`.
    Assign,
    /// Any other binary operator.
    OtherBinary,
}

/// A name occurrence with its source offset.
pub struct CIdentifier {
    pub name: String,
    pub span: usize,
}

impl Clone for CIdentifier {
    fn clone(&self) -> (r: Self)
        ensures
            r == *self,
    {
        CIdentifier { name: self.name.clone(), span: self.span }
    }
}

/// An expression.
pub enum CExpression {
    Identifier(CIdentifier),
    Member(Box<CMemberExpr>),
    Unary(Box<CUnaryExpr>),
    Binary(Box<CBinaryExpr>),
    Call(Box<CCallExpr>),
    /// Constants, string literals, and anything else the analysis skips.
    OtherExpr(usize),
}

/// A member access `base.field` or `base->field`; the analysis joins both
/// into a dotted path.
pub struct CMemberExpr {
    pub base: CExpression,
    pub field: CIdentifier,
    pub span: usize,
}

/// A unary operator expression.
pub struct CUnaryExpr {
    pub op: CUnaryOp,
    pub operand: CExpression,
    pub span: usize,
}

/// A binary operator expression.
pub struct CBinaryExpr {
    pub op: CBinaryOp,
    pub lhs: CExpression,
    pub rhs: CExpression,
    pub span: usize,
}

/// A function call.
pub struct CCallExpr {
    pub callee: CExpression,
    pub args: Vec<CExpression>,
    pub span: usize,
}

/// A statement.
pub enum CStatement {
    Compound(CCompound),
    If(Box<CIfStatement>),
    Expression(Box<CExpressionStatement>),
    While(Box<CWhileStatement>),
    DoWhile(Box<CDoWhileStatement>),
    For(Box<CForStatement>),
    Return(Box<CReturnStatement>),
    /// Statement kinds the analysis does not walk into.
    OtherStatement(usize),
}

/// A `{ ... }` block.
pub struct CCompound {
    pub items: Vec<CBlockItem>,
    pub span: usize,
}

/// An `if` statement, with an optional `else` branch.
pub struct CIfStatement {
    pub condition: CExpression,
    pub then_branch: CStatement,
    pub else_branch: Option<CStatement>,
    pub span: usize,
}

/// An expression statement, possibly empty.
pub struct CExpressionStatement {
    pub expression: Option<CExpression>,
    pub span: usize,
}

/// A `while` loop.
pub struct CWhileStatement {
    pub condition: CExpression,
    pub body: CStatement,
    pub span: usize,
}

/// A `do ... while` loop.
pub struct CDoWhileStatement {
    pub body: CStatement,
    pub condition: CExpression,
    pub span: usize,
}

/// A `for` loop.
pub struct CForStatement {
    pub initializer: CForInitializer,
    pub condition: Option<CExpression>,
    pub step: Option<CExpression>,
    pub body: CStatement,
    pub span: usize,
}

/// The first clause of a `for` loop.
pub enum CForInitializer {
    EmptyInit,
    ForExpression(CExpression),
    ForDeclaration(CDeclaration),
}

/// A `return` statement.
pub struct CReturnStatement {
    pub expression: Option<CExpression>,
    pub span: usize,
}

/// One item of a compound block.
pub enum CBlockItem {
    Declaration(CDeclaration),
    Statement(CStatement),
}

/// A type specifier.
pub enum CTypeSpecifier {
    /// `struct name { ... }` or `struct name`.
    StructType(CStructType),
    /// A typedef name.
    TypedefName(CIdentifier),
    /// `int`, `char`, `void`, and the rest.
    OtherType,
}

/// A struct type specifier, with its field declarations when it is a
/// definition.
pub struct CStructType {
    pub identifier: Option<CIdentifier>,
    pub declarations: Option<Vec<CStructField>>,
}

/// One field declaration inside a struct definition.
pub struct CStructField {
    pub specifiers: Vec<CSpecifierQualifier>,
    pub declarators: Vec<CStructDeclarator>,
}

/// One declarator of a struct field declaration.
pub struct CStructDeclarator {
    pub declarator: Option<CDeclarator>,
}

/// A specifier-qualifier as used in struct field declarations.
pub enum CSpecifierQualifier {
    SqTypeSpecifier(CTypeSpecifier),
    /// The `const` qualifier.
    SqConst,
    SqOther,
}

/// A declaration specifier.
pub enum CDeclarationSpecifier {
    DsTypeSpecifier(CTypeSpecifier),
    /// The `const` qualifier.
    DsConst,
    /// The `typedef` storage class.
    DsTypedef,
    /// Everything else: other qualifiers, storage classes, inline, ...
    DsOther,
}

/// What a declarator names.
pub enum CDeclaratorKind {
    DeclIdentifier(CIdentifier),
    DeclOther,
}

/// A derived declarator: pointer, function, or array.
pub enum CDerivedDeclarator {
    PointerDecl,
    FunctionDecl(CFunctionDeclarator),
    ArrayDecl,
    OtherDerived,
}

/// The parameter list of a function declarator.
pub struct CFunctionDeclarator {
    pub parameters: Vec<CParameterDeclaration>,
}

/// A declarator: what is named plus the derived parts in order.
pub struct CDeclarator {
    pub kind: CDeclaratorKind,
    pub derived: Vec<CDerivedDeclarator>,
}

/// One parameter of a function declarator.
pub struct CParameterDeclaration {
    pub specifiers: Vec<CDeclarationSpecifier>,
    pub declarator: Option<CDeclarator>,
}

/// An initializer.
pub enum CInitializer {
    InitExpression(CExpression),
    InitList(Vec<CInitializer>),
}

/// A declarator together with its optional initializer.
pub struct CInitDeclarator {
    pub declarator: CDeclarator,
    pub initializer: Option<CInitializer>,
    pub span: usize,
}

/// A declaration: specifiers plus declarators.
pub struct CDeclaration {
    pub specifiers: Vec<CDeclarationSpecifier>,
    pub declarators: Vec<CInitDeclarator>,
    pub span: usize,
}

/// A function definition.
pub struct CFunctionDefinition {
    pub specifiers: Vec<CDeclarationSpecifier>,
    pub declarator: CDeclarator,
    pub declarations: Vec<CDeclaration>,
    pub body: CStatement,
    pub span: usize,
}

/// One top-level item of a translation unit.
pub enum CExternalDeclaration {
    ExtDeclaration(CDeclaration),
    ExtFunction(CFunctionDefinition),
    ExtOther,
}

/// A parsed translation unit: the top-level items in source order.
pub struct CTranslationUnit {
    pub items: Vec<CExternalDeclaration>,
}

} // verus!
