//! Input-side tree shapes: the pre-parsed S-expression syntax node handed in
//! by the outer test-file grammar, and the generic node shape exposed by a
//! parser under test.

use vstd::prelude::*;

verus! {

broadcast use vstd::std_specs::vec::group_vec_axioms;

/// The kind of a pre-parsed syntax node produced by the outer test-file
/// grammar.
#[derive(Clone, Copy, Debug, PartialEq, Eq, Structural)]
pub enum NodeKind {
    /// The whole test case: name, code block, expected expression.
    TestCase,
    /// The free-text name line of a test case.
    TestName,
    /// The divider-fenced source-code block of a test case.
    CodeBlock,
    /// A divider line of repeated marker characters.
    Div,
    /// The raw source text inside a code block.
    Code,
    /// One parenthesized expression of the expected tree.
    Expression,
    /// The identifier naming a grammar rule.
    RuleName,
    /// The bracketed list of child expressions of a non-terminal.
    SubExpressions,
    /// The `: "..."` value marker of a terminal.
    RuleValueStr,
    /// The quoted text inside a value marker.
    RuleValue,
}

/// A pre-parsed syntax node: its kind, its matched text, and its ordered
/// children.
#[derive(Debug)]
pub struct SNode {
    pub kind: NodeKind,
    pub text: String,
    pub children: Vec<SNode>,
}

/// The mathematical value of an `SNode`.
#[verifier::ext_equal]
pub struct SNodeView {
    pub kind: NodeKind,
    pub text: Seq<char>,
    pub children: Seq<SNodeView>,
}

impl SNode {
    pub open spec fn view_rec(self) -> SNodeView
        decreases self,
    {
        SNodeView {
            kind: self.kind,
            text: self.text@,
            children: Seq::new(
                self.children.len() as nat,
                |i: int|
                    if 0 <= i < self.children.len() {
                        self.children[i].view_rec()
                    } else {
                        vstd::pervasive::arbitrary()
                    },
            ),
        }
    }
}

impl View for SNode {
    type V = SNodeView;

    open spec fn view(&self) -> SNodeView {
        self.view_rec()
    }
}

impl SNodeView {
    /// Whether every rule-name token in this node and its descendants
    /// carries non-empty text.
    pub open spec fn named(self) -> bool
        decreases self,
    {
        (self.kind == NodeKind::RuleName ==> self.text.len() > 0) && forall|i: int|
            0 <= i < self.children.len() ==> (#[trigger] self.children[i]).named()
    }
}

/// A node of a parser under test: a symbolic rule name, the matched source
/// text, and the ordered children.
#[derive(Debug)]
pub struct ParseNode {
    pub name: String,
    pub text: String,
    pub children: Vec<ParseNode>,
}

/// The mathematical value of a `ParseNode`.
#[verifier::ext_equal]
pub struct ParseNodeView {
    pub name: Seq<char>,
    pub text: Seq<char>,
    pub children: Seq<ParseNodeView>,
}

impl ParseNode {
    pub open spec fn view_rec(self) -> ParseNodeView
        decreases self,
    {
        ParseNodeView {
            name: self.name@,
            text: self.text@,
            children: Seq::new(
                self.children.len() as nat,
                |i: int|
                    if 0 <= i < self.children.len() {
                        self.children[i].view_rec()
                    } else {
                        vstd::pervasive::arbitrary()
                    },
            ),
        }
    }
}

impl View for ParseNode {
    type V = ParseNodeView;

    open spec fn view(&self) -> ParseNodeView {
        self.view_rec()
    }
}

impl ParseNodeView {
    /// Whether every node of this parse tree carries a non-empty rule name.
    pub open spec fn named(self) -> bool
        decreases self,
    {
        self.name.len() > 0 && forall|i: int|
            0 <= i < self.children.len() ==> (#[trigger] self.children[i]).named()
    }
}

} // verus!
