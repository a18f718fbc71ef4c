//! The node graph: typed AST nodes as produced by an external front end.
//!
//! A [`Node`] carries a workspace-unique identifier, a kind tag drawn from the
//! closed set [`NodeKind`], optional attribute payloads (a name, an elementary
//! type name, a call kind), a source line, and its owned children in
//! declaration order. The core only ever reads this structure.

use vstd::prelude::*;

verus! {

/// The closed set of syntactic constructs a node can represent.
#[derive(Clone, Copy, Debug, PartialEq, Eq, Structural)]
pub enum NodeKind {
    SourceUnit,
    ContractDefinition,
    FunctionDefinition,
    Block,
    VariableDeclarationStatement,
    VariableDeclaration,
    ExpressionStatement,
    FunctionCall,
    Identifier,
    ElementaryTypeNameExpression,
    BinaryOperation,
    IfStatement,
    Literal,
    MemberAccess,
    Assignment,
}

/// How a `FunctionCall` node is used at its call site.
#[derive(Clone, Copy, Debug, PartialEq, Eq, Structural)]
pub enum FunctionCallKind {
    FunctionCall,
    TypeConversion,
    StructConstructorCall,
}

/// One syntactic construct of the parsed forest.
///
/// `name` is present on named constructs (identifiers, declarations,
/// definitions); `type_ref` on elementary-type-name expressions whose type
/// reference is an elementary type; `call_kind` on function calls. `src_line`
/// is the source line of the construct, used to key findings.
pub struct Node {
    pub id: u64,
    pub kind: NodeKind,
    pub name: Option<String>,
    pub type_ref: Option<String>,
    pub call_kind: Option<FunctionCallKind>,
    pub src_line: usize,
    pub children: Vec<Node>,
}

/// The pre-order, depth-first visitation sequence of the subtree rooted at
/// `n`: the node itself first, then each child's sequence in declaration
/// order.
pub open spec fn preorder(n: Node) -> Seq<Node>
    decreases n,
{
    seq![n] + preorder_all(n.children@)
}

/// The concatenation of the pre-order sequences of a forest, left to right.
pub open spec fn preorder_all(s: Seq<Node>) -> Seq<Node>
    decreases s,
{
    if s.len() == 0 {
        Seq::empty()
    } else {
        preorder(s[0]) + preorder_all(s.drop_first())
    }
}

} // verus!
