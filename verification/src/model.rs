//! The neutral expression tree: the `Expression` sum type, the decoder from
//! pre-parsed S-expression nodes, the adapter from parser output, and the
//! `TestCase` assembler.

use crate::node::{NodeKind, ParseNode, ParseNodeView, SNode, SNodeView};
use vstd::prelude::*;

verus! {

broadcast use vstd::std_specs::vec::group_vec_axioms;

/// An error raised while decoding an expected tree or assembling a test
/// case, carrying a human-readable message.
#[derive(Debug)]
pub struct ModelError(String);

impl View for ModelError {
    type V = Seq<char>;

    closed spec fn view(&self) -> Seq<char> {
        self.0@
    }
}

impl ModelError {
    pub fn from_str(msg: &str) -> (r: Self)
        ensures
            r@ == msg@,
    {
        Self(msg.to_owned())
    }

    /// The human-readable message this error carries.
    pub fn message(&self) -> (r: &String)
        ensures
            r@ == self@,
    {
        &self.0
    }
}

/// A node of the neutral syntax tree: a leaf with optional matched text, or
/// an interior node with ordered children.
#[derive(Debug)]
pub enum Expression {
    Terminal { name: String, value: Option<String> },
    NonTerminal { name: String, children: Vec<Expression> },
}

/// The mathematical value of an `Expression`.
#[verifier::ext_equal]
pub enum ExprView {
    Terminal { name: Seq<char>, value: Option<Seq<char>> },
    NonTerminal { name: Seq<char>, children: Seq<ExprView> },
}

impl ExprView {
    /// The rule name carried by either variant.
    pub open spec fn name_of(self) -> Seq<char> {
        match self {
            ExprView::Terminal { name, value } => name,
            ExprView::NonTerminal { name, children } => name,
        }
    }

    /// Well-formedness of the tree: every node carries a non-empty name.
    pub open spec fn wf(self) -> bool
        decreases self,
    {
        match self {
            ExprView::Terminal { name, value } => name.len() > 0,
            ExprView::NonTerminal { name, children } => name.len() > 0 && forall|i: int|
                0 <= i < children.len() ==> (#[trigger] children[i]).wf(),
        }
    }
}

impl Expression {
    pub open spec fn view_rec(self) -> ExprView
        decreases self,
    {
        match self {
            Expression::Terminal { name, value } => ExprView::Terminal {
                name: name@,
                value: match value {
                    Some(v) => Some(v@),
                    None => None,
                },
            },
            Expression::NonTerminal { name, children } => ExprView::NonTerminal {
                name: name@,
                children: Seq::new(
                    children.len() as nat,
                    |i: int|
                        if 0 <= i < children.len() {
                            children[i].view_rec()
                        } else {
                            vstd::pervasive::arbitrary()
                        },
                ),
            },
        }
    }
}

impl View for Expression {
    type V = ExprView;

    open spec fn view(&self) -> ExprView {
        self.view_rec()
    }
}

/// The grammar-rule name under which a node kind is reported in messages.
pub open spec fn kind_name_spec(k: NodeKind) -> Seq<char> {
    match k {
        NodeKind::TestCase => "test_case"@,
        NodeKind::TestName => "test_name"@,
        NodeKind::CodeBlock => "code_block"@,
        NodeKind::Div => "div"@,
        NodeKind::Code => "code"@,
        NodeKind::Expression => "expression"@,
        NodeKind::RuleName => "rule_name"@,
        NodeKind::SubExpressions => "sub_expressions"@,
        NodeKind::RuleValueStr => "rule_value_str"@,
        NodeKind::RuleValue => "rule_value"@,
    }
}

/// The diagnostic rendering of a node used in error messages: its kind name
/// followed by its matched text in parentheses.
pub open spec fn describe_spec(n: SNodeView) -> Seq<char> {
    kind_name_spec(n.kind) + "("@ + n.text + ")"@
}

/// The message reported when a node does not have the kind a rule of the
/// grammar demands.
pub open spec fn mismatch_msg(n: SNodeView, expected: NodeKind) -> Seq<char> {
    "Expected node "@ + describe_spec(n) + " kind to be "@ + kind_name_spec(expected)
}

/// The message reported when the second child of an expression node is of a
/// kind the decoder does not know.
pub open spec fn unexpected_msg(n: SNodeView) -> Seq<char> {
    "Unexpected rule "@ + describe_spec(n)
}

/// What decoding a hand-authored S-expression node yields: the expression
/// value, or the message of the decode error.
///
/// The node's first child must be a rule name. With no second child the
/// result is a valueless terminal; a sub-expressions child makes a
/// non-terminal (possibly with no children); a value child makes a terminal
/// whose value is the inner token's text, or the empty string when the inner
/// token is absent. Any other second child is refused.
pub open spec fn decode_spec(n: SNodeView) -> Result<ExprView, Seq<char>>
    decreases n, 1int,
{
    if n.children.len() == 0 {
        Err("Missing rule name"@)
    } else if n.children[0].kind != NodeKind::RuleName {
        Err(mismatch_msg(n.children[0], NodeKind::RuleName))
    } else {
        let name = n.children[0].text;
        if n.children.len() == 1 {
            Ok(ExprView::Terminal { name, value: None })
        } else {
            let second = n.children[1];
            match second.kind {
                NodeKind::SubExpressions => match decode_children_spec(second.children) {
                    Ok(cs) => Ok(ExprView::NonTerminal { name, children: cs }),
                    Err(m) => Err(m),
                },
                NodeKind::RuleValueStr => if second.children.len() == 0 {
                    Ok(ExprView::Terminal { name, value: Some(Seq::empty()) })
                } else if second.children[0].kind != NodeKind::RuleValue {
                    Err(mismatch_msg(second.children[0], NodeKind::RuleValue))
                } else {
                    Ok(ExprView::Terminal { name, value: Some(second.children[0].text) })
                },
                _ => Err(unexpected_msg(second)),
            }
        }
    }
}

/// Decoding of an ordered child list: all children in order, stopping at the
/// first error.
pub open spec fn decode_children_spec(ns: Seq<SNodeView>) -> Result<Seq<ExprView>, Seq<char>>
    decreases ns, 0int,
{
    if ns.len() == 0 {
        Ok(Seq::empty())
    } else {
        match decode_spec(ns[0]) {
            Err(m) => Err(m),
            Ok(e) => match decode_children_spec(ns.drop_first()) {
                Err(m) => Err(m),
                Ok(rest) => Ok(seq![e] + rest),
            },
        }
    }
}

/// Whether a node conforms to the expected-tree grammar: a rule name
/// first, then at most one more child, which is either a sub-expressions
/// node all of whose children conform, or a value node holding at most one
/// value token.
pub open spec fn conforms(n: SNodeView) -> bool
    decreases n, 1int,
{
    &&& n.children.len() >= 1
    &&& n.children[0].kind == NodeKind::RuleName
    &&& n.children.len() <= 2
    &&& (n.children.len() == 2 ==> {
        let second = n.children[1];
        ||| (second.kind == NodeKind::SubExpressions && conforms_all(second.children))
        ||| (second.kind == NodeKind::RuleValueStr && (second.children.len() == 0 || (
        second.children.len() == 1 && second.children[0].kind == NodeKind::RuleValue)))
    })
}

/// Whether every node of an ordered child list conforms to the
/// expected-tree grammar.
pub open spec fn conforms_all(ns: Seq<SNodeView>) -> bool
    decreases ns, 0int,
{
    if ns.len() == 0 {
        true
    } else {
        conforms(ns[0]) && conforms_all(ns.drop_first())
    }
}

/// Decoding succeeds on every node that conforms to the expected-tree
/// grammar, and the variant of the result follows the second child
/// exactly: no second child gives a valueless terminal; a sub-expressions
/// child gives a non-terminal, even when its child list is empty; a value
/// child without an inner token gives a terminal holding the explicit
/// empty string, and with one gives a terminal holding its text.
pub proof fn lemma_decode_conforms(n: SNodeView)
    requires
        conforms(n),
    ensures
        decode_spec(n) is Ok,
        n.children.len() == 1 ==> decode_spec(n)->Ok_0 == (ExprView::Terminal {
            name: n.children[0].text,
            value: None::<Seq<char>>,
        }),
        n.children.len() == 2 && n.children[1].kind == NodeKind::SubExpressions ==> decode_spec(
            n,
        )->Ok_0 is NonTerminal && decode_spec(n)->Ok_0->NonTerminal_children.len()
            == n.children[1].children.len(),
        n.children.len() == 2 && n.children[1].kind == NodeKind::RuleValueStr
            && n.children[1].children.len() == 0 ==> decode_spec(n)->Ok_0 == (ExprView::Terminal {
            name: n.children[0].text,
            value: Some(Seq::<char>::empty()),
        }),
        n.children.len() == 2 && n.children[1].kind == NodeKind::RuleValueStr
            && n.children[1].children.len() == 1 ==> decode_spec(n)->Ok_0 == (ExprView::Terminal {
            name: n.children[0].text,
            value: Some(n.children[1].children[0].text),
        }),
    decreases n, 1int,
{
    if n.children.len() == 2 && n.children[1].kind == NodeKind::SubExpressions {
        lemma_decode_children_conforms(n.children[1].children);
    }
}

/// Decoding succeeds on every child list all of whose nodes conform, one
/// decoded expression per node.
pub proof fn lemma_decode_children_conforms(ns: Seq<SNodeView>)
    requires
        conforms_all(ns),
    ensures
        decode_children_spec(ns) is Ok,
        decode_children_spec(ns)->Ok_0.len() == ns.len(),
    decreases ns, 0int,
{
    if ns.len() > 0 {
        lemma_decode_conforms(ns[0]);
        lemma_decode_children_conforms(ns.drop_first());
    }
}

/// The decoder establishes the tree invariant: on a conforming node whose
/// rule-name tokens are non-empty, every node of the decoded expression
/// carries a non-empty name.
pub proof fn lemma_decode_wf(n: SNodeView)
    requires
        conforms(n),
        n.named(),
    ensures
        decode_spec(n) is Ok,
        decode_spec(n)->Ok_0.wf(),
    decreases n, 1int,
{
    lemma_decode_conforms(n);
    assert(n.children[0].named());
    if n.children.len() == 2 && n.children[1].kind == NodeKind::SubExpressions {
        assert(n.children[1].named());
        lemma_decode_children_wf(n.children[1].children);
    }
}

/// The decoder establishes the tree invariant on every conforming child
/// list whose rule-name tokens are non-empty.
pub proof fn lemma_decode_children_wf(ns: Seq<SNodeView>)
    requires
        conforms_all(ns),
        forall|i: int| 0 <= i < ns.len() ==> (#[trigger] ns[i]).named(),
    ensures
        decode_children_spec(ns) is Ok,
        decode_children_spec(ns)->Ok_0.len() == ns.len(),
        forall|i: int|
            0 <= i < ns.len() ==> (#[trigger] decode_children_spec(ns)->Ok_0[i]).wf(),
    decreases ns, 0int,
{
    if ns.len() > 0 {
        lemma_decode_wf(ns[0]);
        lemma_decode_children_wf(ns.drop_first());
        let es = decode_children_spec(ns)->Ok_0;
        let rest = decode_children_spec(ns.drop_first())->Ok_0;
        assert(es == seq![decode_spec(ns[0])->Ok_0] + rest);
        assert forall|i: int| 0 <= i < ns.len() implies (#[trigger] es[i]).wf() by {
            if i == 0 {
                assert(es[0] == decode_spec(ns[0])->Ok_0);
            } else {
                assert(es[i] == rest[i - 1]);
            }
        }
    }
}

/// The adapter establishes the tree invariant: on a parse tree whose every
/// node carries a non-empty rule name, the adapted expression does too.
pub proof fn lemma_adapt_wf(n: ParseNodeView)
    requires
        n.named(),
    ensures
        adapt_spec(n).wf(),
    decreases n,
{
    if n.children.len() > 0 {
        let cs = adapt_spec(n)->NonTerminal_children;
        assert forall|i: int| 0 <= i < cs.len() implies (#[trigger] cs[i]).wf() by {
            assert(n.children[i].named());
            lemma_adapt_wf(n.children[i]);
            assert(cs[i] == adapt_spec(n.children[i]));
        }
    }
}

/// The adapter's structural rule: a node with no children becomes a
/// terminal holding its matched text — never a valueless terminal and
/// never an empty non-terminal — and a node with children, even a single
/// one, becomes a non-terminal over its adapted children.
pub proof fn lemma_adapt_variant(n: ParseNodeView)
    ensures
        n.children.len() == 0 ==> adapt_spec(n) == (ExprView::Terminal {
            name: n.name,
            value: Some(n.text),
        }),
        n.children.len() > 0 ==> adapt_spec(n) is NonTerminal && adapt_spec(
            n,
        )->NonTerminal_children.len() == n.children.len() && forall|i: int|
            0 <= i < n.children.len() ==> adapt_spec(n)->NonTerminal_children[i] == adapt_spec(
                n.children[i],
            ),
{
}

impl Expression {
    /// The rule name of this node, whichever variant it is.
    pub fn name(&self) -> (r: &String)
        ensures
            r@ == self@.name_of(),
    {
        match self {
            Self::Terminal { name, value } => name,
            Self::NonTerminal { name, children } => name,
        }
    }
}

/// What adapting a node of a parser under test yields. Adaptation is total:
/// a node with no children becomes a terminal holding its matched text
/// (never an empty non-terminal), and a node with children — even a single
/// one — becomes a non-terminal over its adapted children.
pub open spec fn adapt_spec(n: ParseNodeView) -> ExprView
    decreases n,
{
    if n.children.len() == 0 {
        ExprView::Terminal { name: n.name, value: Some(n.text) }
    } else {
        ExprView::NonTerminal {
            name: n.name,
            children: Seq::new(
                n.children.len(),
                |i: int|
                    if 0 <= i < n.children.len() {
                        adapt_spec(n.children[i])
                    } else {
                        vstd::pervasive::arbitrary()
                    },
            ),
        }
    }
}

/// The display name of a node kind, as `kind_name_spec` gives it.
pub fn kind_name(k: NodeKind) -> (r: &'static str)
    ensures
        r@ == kind_name_spec(k),
{
    match k {
        NodeKind::TestCase => "test_case",
        NodeKind::TestName => "test_name",
        NodeKind::CodeBlock => "code_block",
        NodeKind::Div => "div",
        NodeKind::Code => "code",
        NodeKind::Expression => "expression",
        NodeKind::RuleName => "rule_name",
        NodeKind::SubExpressions => "sub_expressions",
        NodeKind::RuleValueStr => "rule_value_str",
        NodeKind::RuleValue => "rule_value",
    }
}

/// Renders a node for an error message, as `describe_spec` gives it.
pub fn describe(n: &SNode) -> (r: String)
    ensures
        r@ == describe_spec(n@),
{
    let mut r = kind_name(n.kind).to_owned();
    r.append("(");
    r.append(n.text.as_str());
    r.append(")");
    r
}

/// Checks that a node has the kind a grammar rule demands, handing it back
/// unchanged, or reports the mismatch.
pub(crate) fn assert_rule<'a>(node: &'a SNode, rule: NodeKind) -> (r: Result<&'a SNode, ModelError>)
    ensures
        node@.kind == rule ==> r == Ok::<&'a SNode, ModelError>(node),
        node@.kind != rule ==> r is Err && r->Err_0@ == mismatch_msg(node@, rule),
{
    if node.kind == rule {
        Ok(node)
    } else {
        let mut m = "Expected node ".to_owned();
        m.append(describe(node).as_str());
        m.append(" kind to be ");
        m.append(kind_name(rule));
        Err(ModelError(m))
    }
}

/// Appending one decodable node extends a successful child-list decode by
/// its decoded expression.
proof fn lemma_decode_children_push(ns: Seq<SNodeView>, x: SNodeView)
    requires
        decode_children_spec(ns) is Ok,
        decode_spec(x) is Ok,
    ensures
        decode_children_spec(ns.push(x)) == Ok::<Seq<ExprView>, Seq<char>>(
            decode_children_spec(ns)->Ok_0.push(decode_spec(x)->Ok_0),
        ),
    decreases ns.len(),
{
    let whole = ns.push(x);
    assert(whole.len() == ns.len() + 1);
    if ns.len() == 0 {
        assert(whole[0] == x);
        assert(whole.drop_first() =~= Seq::<SNodeView>::empty());
        assert(decode_children_spec(whole.drop_first()) == Ok::<Seq<ExprView>, Seq<char>>(
            Seq::empty(),
        ));
        assert(decode_children_spec(whole) == Ok::<Seq<ExprView>, Seq<char>>(
            seq![decode_spec(x)->Ok_0] + Seq::<ExprView>::empty(),
        ));
        assert(seq![decode_spec(x)->Ok_0] + Seq::<ExprView>::empty() =~= decode_children_spec(
            ns,
        )->Ok_0.push(decode_spec(x)->Ok_0));
    } else {
        assert(whole[0] == ns[0]);
        assert(decode_spec(ns[0]) is Ok);
        assert(decode_children_spec(ns.drop_first()) is Ok);
        assert(whole.drop_first() =~= ns.drop_first().push(x));
        lemma_decode_children_push(ns.drop_first(), x);
        assert(decode_children_spec(whole.drop_first()) == Ok::<Seq<ExprView>, Seq<char>>(
            decode_children_spec(ns.drop_first())->Ok_0.push(decode_spec(x)->Ok_0),
        ));
        assert(decode_children_spec(whole) == Ok::<Seq<ExprView>, Seq<char>>(
            seq![decode_spec(ns[0])->Ok_0] + decode_children_spec(whole.drop_first())->Ok_0,
        ));
        assert(decode_children_spec(ns) == Ok::<Seq<ExprView>, Seq<char>>(
            seq![decode_spec(ns[0])->Ok_0] + decode_children_spec(ns.drop_first())->Ok_0,
        ));
        assert(seq![decode_spec(ns[0])->Ok_0] + decode_children_spec(
            ns.drop_first(),
        )->Ok_0.push(decode_spec(x)->Ok_0) =~= (seq![decode_spec(ns[0])->Ok_0]
            + decode_children_spec(ns.drop_first())->Ok_0).push(decode_spec(x)->Ok_0));
    }
}

/// A child that fails to decode after a decodable prefix makes the whole
/// child list fail with that child's message.
proof fn lemma_decode_children_err(ns: Seq<SNodeView>, i: int)
    requires
        0 <= i < ns.len(),
        decode_children_spec(ns.take(i)) is Ok,
        decode_spec(ns[i]) is Err,
    ensures
        decode_children_spec(ns) is Err,
        decode_children_spec(ns)->Err_0 == decode_spec(ns[i])->Err_0,
    decreases i,
{
    if i == 0 {
        assert(decode_spec(ns[0]) is Err);
    } else {
        let pre = ns.take(i);
        assert(pre[0] == ns[0]);
        assert(decode_spec(ns[0]) is Ok);
        assert(ns.drop_first().take(i - 1) =~= pre.drop_first());
        assert(ns.drop_first()[i - 1] == ns[i]);
        lemma_decode_children_err(ns.drop_first(), i - 1);
    }
}

impl Expression {
    /// Decodes a hand-authored S-expression node into an expression, exactly
    /// as `decode_spec` reads it, or fails with that spec's message.
    pub fn try_from_sexpr(node: &SNode) -> (r: Result<Self, ModelError>)
        ensures
            r is Ok ==> decode_spec(node@) is Ok && r->Ok_0@ == decode_spec(node@)->Ok_0,
            r is Err ==> decode_spec(node@) is Err && r->Err_0@ == decode_spec(node@)->Err_0,
        decreases node,
    {
        if node.children.len() == 0 {
            return Err(ModelError::from_str("Missing rule name"));
        }
        let name = match assert_rule(&node.children[0], NodeKind::RuleName) {
            Ok(p) => p.text.clone(),
            Err(e) => return Err(e),
        };
        if node.children.len() == 1 {
            return Ok(Self::Terminal { name, value: None });
        }
        let second = &node.children[1];
        match second.kind {
            NodeKind::SubExpressions => {
                let ghost subv = second@;
                let mut children: Vec<Expression> = Vec::new();
                let m = second.children.len();
                proof {
                    assert(subv.children.take(0) =~= Seq::<SNodeView>::empty());
                    assert(Seq::<Expression>::empty().map_values(|c: Expression| c@)
                        =~= Seq::<ExprView>::empty());
                }
                #[verifier::loop_isolation(false)]
                for i in 0..m
                    invariant
                        m == second.children.len(),
                        subv == second@,
                        decode_children_spec(subv.children.take(i as int)) == Ok::<
                            Seq<ExprView>,
                            Seq<char>,
                        >(children@.map_values(|c: Expression| c@)),
                    decreases m - i,
                {
                    proof {
                        assert(decreases_to!(*node => node.children));
                        assert(decreases_to!(node.children => node.children[1 as int]));
                        assert(decreases_to!(node.children[1 as int] => node.children[
                            1 as int].children));
                        assert(decreases_to!(node.children[1 as int].children => node.children[
                            1 as int].children[i as int]));
                    }
                    match Self::try_from_sexpr(&second.children[i]) {
                        Ok(c) => {
                            proof {
                                assert(second.children[i as int]@ == subv.children[i as int]);
                                lemma_decode_children_push(
                                    subv.children.take(i as int),
                                    subv.children[i as int],
                                );
                                assert(subv.children.take(i as int).push(
                                    subv.children[i as int],
                                ) =~= subv.children.take(i + 1));
                                assert(children@.push(c).map_values(|x: Expression| x@)
                                    =~= children@.map_values(|x: Expression| x@).push(c@));
                            }
                            children.push(c);
                        },
                        Err(e) => {
                            proof {
                                assert(second.children[i as int]@ == subv.children[i as int]);
                                lemma_decode_children_err(subv.children, i as int);
                            }
                            return Err(e);
                        },
                    }
                }
                proof {
                    assert(subv.children.take(m as int) =~= subv.children);
                }
                let r = Self::NonTerminal { name, children };
                proof {
                    assert(r@ matches ExprView::NonTerminal { name: _, children: rc } && rc
                        =~= children@.map_values(|c: Expression| c@));
                }
                Ok(r)
            },
            NodeKind::RuleValueStr => {
                if second.children.len() == 0 {
                    Ok(Self::Terminal { name, value: Some(String::new()) })
                } else {
                    match assert_rule(&second.children[0], NodeKind::RuleValue) {
                        Ok(p) => Ok(Self::Terminal { name, value: Some(p.text.clone()) }),
                        Err(e) => Err(e),
                    }
                }
            },
            _ => {
                let mut msg = "Unexpected rule ".to_owned();
                msg.append(describe(second).as_str());
                Err(ModelError(msg))
            },
        }
    }

    /// Adapts the output of a parser under test, exactly as `adapt_spec`
    /// maps it. Adaptation cannot fail.
    pub fn try_from_code(node: &ParseNode) -> (r: Self)
        ensures
            r@ == adapt_spec(node@),
        decreases node,
    {
        let m = node.children.len();
        if m == 0 {
            return Self::Terminal { name: node.name.clone(), value: Some(node.text.clone()) };
        }
        let mut children: Vec<Expression> = Vec::new();
        #[verifier::loop_isolation(false)]
        for i in 0..m
            invariant
                children@.len() == i,
                forall|k: int| 0 <= k < i ==> children@[k]@ == adapt_spec(node@.children[k]),
            decreases m - i,
        {
            proof {
                assert(decreases_to!(*node => node.children));
                assert(decreases_to!(node.children => node.children[i as int]));
            }
            let c = Self::try_from_code(&node.children[i]);
            proof {
                assert(node.children[i as int]@ == node@.children[i as int]);
            }
            children.push(c);
        }
        let r = Self::NonTerminal { name: node.name.clone(), children };
        proof {
            assert(r@ matches ExprView::NonTerminal { name: rn, children: rc } && rn == node@.name
                && rc =~= adapt_spec(node@)->NonTerminal_children);
        }
        r
    }
}

} // verus!
