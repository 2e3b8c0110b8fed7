//! The test-case assembler: combines a name section, a divider-fenced code
//! section and a decoded expected-tree section into one immutable test case.

use crate::model::{decode_spec, mismatch_msg, Expression, ExprView, ModelError};
use crate::model::assert_rule;
use crate::node::{NodeKind, SNode, SNodeView};
use crate::text::{trim, trim_spec};
use vstd::prelude::*;

verus! {

/// One test case of a grammar test file: a trimmed name, the trimmed raw
/// source text, and the expected tree decoded from its S-expression.
#[derive(Debug)]
pub struct TestCase {
    pub name: String,
    pub code: String,
    pub expression: Expression,
}

/// The mathematical value of a `TestCase`.
#[verifier::ext_equal]
pub struct TestCaseView {
    pub name: Seq<char>,
    pub code: Seq<char>,
    pub expression: ExprView,
}

impl View for TestCase {
    type V = TestCaseView;

    open spec fn view(&self) -> TestCaseView {
        TestCaseView { name: self.name@, code: self.code@, expression: self.expression@ }
    }
}

/// What assembling a pre-parsed test-case node yields: the test case, or
/// the message of the assembly or decode error.
///
/// The node's children must be, in order: a test name, a code block (itself
/// a divider followed by the raw code), and the expected-tree expression.
/// Name and code are trimmed; the expression is decoded by `decode_spec`.
pub open spec fn assemble_spec(n: SNodeView) -> Result<TestCaseView, Seq<char>> {
    if n.children.len() < 1 {
        Err("Missing test name"@)
    } else if n.children[0].kind != NodeKind::TestName {
        Err(mismatch_msg(n.children[0], NodeKind::TestName))
    } else if n.children.len() < 2 {
        Err("Missing code block"@)
    } else if n.children[1].kind != NodeKind::CodeBlock {
        Err(mismatch_msg(n.children[1], NodeKind::CodeBlock))
    } else {
        let block = n.children[1];
        if block.children.len() < 1 {
            Err("Missing div"@)
        } else if block.children[0].kind != NodeKind::Div {
            Err(mismatch_msg(block.children[0], NodeKind::Div))
        } else if block.children.len() < 2 {
            Err("Missing code"@)
        } else if block.children[1].kind != NodeKind::Code {
            Err(mismatch_msg(block.children[1], NodeKind::Code))
        } else if n.children.len() < 3 {
            Err("Missing expression"@)
        } else if n.children[2].kind != NodeKind::Expression {
            Err(mismatch_msg(n.children[2], NodeKind::Expression))
        } else {
            match decode_spec(n.children[2]) {
                Ok(e) => Ok(
                    TestCaseView {
                        name: trim_spec(n.children[0].text),
                        code: trim_spec(block.children[1].text),
                        expression: e,
                    },
                ),
                Err(m) => Err(m),
            }
        }
    }
}

impl TestCase {
    /// Assembles a pre-parsed test-case node, exactly as `assemble_spec`
    /// reads it, or fails with that spec's message.
    pub fn try_from_pair(node: &SNode) -> (r: Result<Self, ModelError>)
        ensures
            r is Ok ==> assemble_spec(node@) is Ok && r->Ok_0@ == assemble_spec(node@)->Ok_0,
            r is Err ==> assemble_spec(node@) is Err && r->Err_0@ == assemble_spec(node@)->Err_0,
    {
        if node.children.len() < 1 {
            return Err(ModelError::from_str("Missing test name"));
        }
        let name = match assert_rule(&node.children[0], NodeKind::TestName) {
            Ok(p) => trim(p.text.as_str()),
            Err(e) => return Err(e),
        };
        if node.children.len() < 2 {
            return Err(ModelError::from_str("Missing code block"));
        }
        let block = match assert_rule(&node.children[1], NodeKind::CodeBlock) {
            Ok(p) => p,
            Err(e) => return Err(e),
        };
        if block.children.len() < 1 {
            return Err(ModelError::from_str("Missing div"));
        }
        match assert_rule(&block.children[0], NodeKind::Div) {
            Ok(_) => (),
            Err(e) => return Err(e),
        }
        if block.children.len() < 2 {
            return Err(ModelError::from_str("Missing code"));
        }
        let code = match assert_rule(&block.children[1], NodeKind::Code) {
            Ok(p) => trim(p.text.as_str()),
            Err(e) => return Err(e),
        };
        if node.children.len() < 3 {
            return Err(ModelError::from_str("Missing expression"));
        }
        let section = match assert_rule(&node.children[2], NodeKind::Expression) {
            Ok(p) => p,
            Err(e) => return Err(e),
        };
        let expression = match Expression::try_from_sexpr(section) {
            Ok(e) => e,
            Err(e) => return Err(e),
        };
        Ok(TestCase { name, code, expression })
    }
}

} // verus!
