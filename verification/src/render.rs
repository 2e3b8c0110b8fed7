//! The expression formatter: renders an expression into a text sink as a
//! parenthesized tree, with a configurable indent unit, a nesting-level
//! counter, and an optional foreground color applied to every emitted piece
//! of text or punctuation (indentation and line breaks stay plain).

use crate::model::{Expression, ExprView};
use vstd::prelude::*;
use vstd::string::StringExecFns;

verus! {

broadcast use vstd::std_specs::vec::group_vec_axioms;

#[verifier::external_type_specification]
#[verifier::external_body]
pub struct ExColor(colored::Color);

/// The indent unit repeated once per nesting level.
pub open spec fn indent_rep(ind: Seq<char>, n: nat) -> Seq<char>
    decreases n,
{
    if n == 0 {
        Seq::empty()
    } else {
        indent_rep(ind, (n - 1) as nat) + ind
    }
}

/// The plain (uncolored) rendering of an expression at a nesting level: a
/// valueless terminal and a childless non-terminal both collapse to
/// `(name)`; a terminal with a value renders `(name: value)`; a non-terminal
/// with children opens `(name`, renders each child one level deeper on its
/// own line, and closes with `)` at its own level.
pub open spec fn rendered(e: ExprView, level: nat, ind: Seq<char>) -> Seq<char>
    decreases e, 1int,
{
    match e {
        ExprView::Terminal { name, value } => match value {
            Some(v) => indent_rep(ind, level) + "("@ + name + ": "@ + v + ")"@,
            None => indent_rep(ind, level) + "("@ + name + ")"@,
        },
        ExprView::NonTerminal { name, children } => if children.len() == 0 {
            indent_rep(ind, level) + "("@ + name + ")"@
        } else {
            indent_rep(ind, level) + "("@ + name + seq!['\n'] + rendered_children(
                children,
                level + 1,
                ind,
            ) + indent_rep(ind, level) + ")"@
        },
    }
}

/// The plain rendering of an ordered child list, each child followed by a
/// line break.
pub open spec fn rendered_children(cs: Seq<ExprView>, level: nat, ind: Seq<char>) -> Seq<char>
    decreases cs, 0int,
{
    if cs.len() == 0 {
        Seq::empty()
    } else {
        rendered(cs[0], level, ind) + seq!['\n'] + rendered_children(cs.drop_first(), level, ind)
    }
}

/// The ANSI escape character, which starts a terminal style sequence.
pub open spec fn esc_char() -> char {
    '\u{1b}'
}

/// Whether a piece of text holds no ANSI escape character of its own.
pub open spec fn esc_free(s: Seq<char>) -> bool {
    forall|i: int| 0 <= i < s.len() ==> s[i] != esc_char()
}

/// How one colored piece of output may look: the plain text with a style
/// prefix and a reset suffix around it (either may be empty).
pub open spec fn wraps(plain: Seq<char>, actual: Seq<char>) -> bool {
    exists|a: Seq<char>, b: Seq<char>| actual == a + plain + b
}

/// What one emitted piece may look like: the plain text itself when no
/// color is set; when a color is set, an escape-free piece is the plain
/// text wrapped in that color's styling.
pub open spec fn emits(styled: bool, plain: Seq<char>, actual: Seq<char>) -> bool {
    if styled {
        esc_free(plain) ==> wraps(plain, actual)
    } else {
        actual == plain
    }
}

/// How a rendering of an expression may look in the output: the plain
/// rendering of `rendered`, with each piece of text or punctuation passed
/// through `emits`; indentation and line breaks are emitted exactly.
pub open spec fn is_rendering(
    e: ExprView,
    level: nat,
    ind: Seq<char>,
    styled: bool,
    seg: Seq<char>,
) -> bool
    decreases e, 1int,
{
    match e {
        ExprView::Terminal { name, value } => match value {
            Some(v) => exists|
                po: Seq<char>,
                pn: Seq<char>,
                pm: Seq<char>,
                pv: Seq<char>,
                pc: Seq<char>,
            |
                emits(styled, "("@, po) && emits(styled, name, pn) && emits(styled, ": "@, pm)
                    && emits(styled, v, pv) && emits(styled, ")"@, pc) && seg == indent_rep(
                    ind,
                    level,
                ) + po + pn + pm + pv + pc,
            None => exists|po: Seq<char>, pn: Seq<char>, pc: Seq<char>|
                emits(styled, "("@, po) && emits(styled, name, pn) && emits(styled, ")"@, pc)
                    && seg == indent_rep(ind, level) + po + pn + pc,
        },
        ExprView::NonTerminal { name, children } => if children.len() == 0 {
            exists|po: Seq<char>, pn: Seq<char>, pc: Seq<char>|
                emits(styled, "("@, po) && emits(styled, name, pn) && emits(styled, ")"@, pc)
                    && seg == indent_rep(ind, level) + po + pn + pc
        } else {
            exists|po: Seq<char>, pn: Seq<char>, body: Seq<char>, pc: Seq<char>|
                emits(styled, "("@, po) && emits(styled, name, pn) && emits(styled, ")"@, pc)
                    && are_renderings(children, level + 1, ind, styled, body) && seg == indent_rep(
                    ind,
                    level,
                ) + po + pn + seq!['\n'] + body + indent_rep(ind, level) + pc
        },
    }
}

/// How renderings of an ordered child list may look in the output, each
/// child's rendering followed by a line break.
pub open spec fn are_renderings(
    cs: Seq<ExprView>,
    level: nat,
    ind: Seq<char>,
    styled: bool,
    seg: Seq<char>,
) -> bool
    decreases cs, 0int,
{
    if cs.len() == 0 {
        seg == Seq::<char>::empty()
    } else {
        exists|s0: Seq<char>, rest: Seq<char>|
            is_rendering(cs[0], level, ind, styled, s0) && are_renderings(
                cs.drop_first(),
                level,
                ind,
                styled,
                rest,
            ) && seg == s0 + seq!['\n'] + rest
    }
}

/// How deep the nesting of an expression goes: the number of levels the
/// formatter descends below it.
pub open spec fn depth(e: ExprView) -> nat
    decreases e, 1int,
{
    match e {
        ExprView::Terminal { name, value } => 0,
        ExprView::NonTerminal { name, children } => if children.len() == 0 {
            0
        } else {
            1 + depth_max(children)
        },
    }
}

/// The deepest nesting among an ordered child list.
pub open spec fn depth_max(cs: Seq<ExprView>) -> nat
    decreases cs, 0int,
{
    if cs.len() == 0 {
        0
    } else if depth(cs[0]) >= depth_max(cs.drop_first()) {
        depth(cs[0])
    } else {
        depth_max(cs.drop_first())
    }
}

/// Every child's nesting is bounded by the deepest in its list.
proof fn lemma_depth_max_ge(cs: Seq<ExprView>, i: int)
    requires
        0 <= i < cs.len(),
    ensures
        depth(cs[i]) <= depth_max(cs),
    decreases cs.len(),
{
    if i > 0 {
        lemma_depth_max_ge(cs.drop_first(), i - 1);
    }
}

/// Pieces emitted for a terminal with a value assemble into its rendering.
proof fn lemma_terminal_some_intro(
    name: Seq<char>,
    v: Seq<char>,
    level: nat,
    ind: Seq<char>,
    styled: bool,
    po: Seq<char>,
    pn: Seq<char>,
    pm: Seq<char>,
    pv: Seq<char>,
    pc: Seq<char>,
    seg: Seq<char>,
)
    requires
        emits(styled, "("@, po),
        emits(styled, name, pn),
        emits(styled, ": "@, pm),
        emits(styled, v, pv),
        emits(styled, ")"@, pc),
        seg == indent_rep(ind, level) + po + pn + pm + pv + pc,
    ensures
        is_rendering(ExprView::Terminal { name, value: Some(v) }, level, ind, styled, seg),
{
}

/// Pieces emitted for a valueless terminal assemble into its rendering.
proof fn lemma_terminal_none_intro(
    name: Seq<char>,
    level: nat,
    ind: Seq<char>,
    styled: bool,
    po: Seq<char>,
    pn: Seq<char>,
    pc: Seq<char>,
    seg: Seq<char>,
)
    requires
        emits(styled, "("@, po),
        emits(styled, name, pn),
        emits(styled, ")"@, pc),
        seg == indent_rep(ind, level) + po + pn + pc,
    ensures
        is_rendering(ExprView::Terminal { name, value: None }, level, ind, styled, seg),
{
}

/// Pieces emitted for a childless non-terminal assemble into its
/// rendering.
proof fn lemma_nonterminal_empty_intro(
    name: Seq<char>,
    level: nat,
    ind: Seq<char>,
    styled: bool,
    po: Seq<char>,
    pn: Seq<char>,
    pc: Seq<char>,
    seg: Seq<char>,
)
    requires
        emits(styled, "("@, po),
        emits(styled, name, pn),
        emits(styled, ")"@, pc),
        seg == indent_rep(ind, level) + po + pn + pc,
    ensures
        is_rendering(
            ExprView::NonTerminal { name, children: Seq::empty() },
            level,
            ind,
            styled,
            seg,
        ),
{
}

/// Pieces emitted for a non-terminal with children assemble, around its
/// children's renderings, into its rendering.
proof fn lemma_nonterminal_intro(
    name: Seq<char>,
    children: Seq<ExprView>,
    level: nat,
    ind: Seq<char>,
    styled: bool,
    po: Seq<char>,
    pn: Seq<char>,
    body: Seq<char>,
    pc: Seq<char>,
    seg: Seq<char>,
)
    requires
        children.len() > 0,
        emits(styled, "("@, po),
        emits(styled, name, pn),
        emits(styled, ")"@, pc),
        are_renderings(children, level + 1, ind, styled, body),
        seg == indent_rep(ind, level) + po + pn + seq!['\n'] + body + indent_rep(ind, level) + pc,
    ensures
        is_rendering(ExprView::NonTerminal { name, children }, level, ind, styled, seg),
{
}

/// A formatter: an indent unit, the current nesting level, and an optional
/// foreground color.
pub struct ExpressionFormatter {
    pub indent: String,
    pub level: usize,
    pub color: Option<colored::Color>,
}

/// Relies on colored's `Colorize::color` for `&str` and the `Display` of
/// the `ColoredString` it returns: when coloring is disabled the text comes
/// back unchanged, and otherwise an input without an escape character of
/// its own comes back with a style prefix and a reset suffix around it.
#[verifier::external_body]
fn style(s: &str, color: colored::Color) -> (r: String)
    ensures
        esc_free(s@) ==> wraps(s@, r@),
{
    colored::Colorize::color(s, color).to_string()
}

impl ExpressionFormatter {
    /// A formatter with a two-space indent unit, at the outermost level,
    /// with no color.
    pub fn from_defaults() -> (r: Self)
        ensures
            r.indent@ == "  "@,
            r.level == 0,
            r.color is None,
    {
        Self { indent: "  ".to_owned(), level: 0, color: None }
    }

    /// Writes the indent unit once per nesting level, always plain.
    pub(crate) fn write_indent(&self, out: &mut String)
        ensures
            final(out)@ == old(out)@ + indent_rep(self.indent@, self.level as nat),
    {
        let m = self.level;
        #[verifier::loop_isolation(false)]
        for k in 0..m
            invariant
                out@ == old(out)@ + indent_rep(self.indent@, k as nat),
            decreases m - k,
        {
            out.append(self.indent.as_str());
            proof {
                assert(out@ =~= old(out)@ + indent_rep(self.indent@, (k + 1) as nat));
            }
        }
    }

    /// Writes one line break, always plain.
    pub(crate) fn write_newline(&self, out: &mut String)
        ensures
            final(out)@ == old(out)@ + seq!['\n'],
    {
        out.append("\n");
        proof {
            reveal_strlit("\n");
            assert(out@ =~= old(out)@ + seq!['\n']);
        }
    }

    /// Writes one piece of text, wrapped in the configured color when one
    /// is set.
    pub(crate) fn write_str(&self, s: &str, out: &mut String)
        ensures
            final(out)@ == old(out)@ + final(out)@.skip(old(out)@.len() as int),
            emits(self.color is Some, s@, final(out)@.skip(old(out)@.len() as int)),
    {
        match &self.color {
            None => {
                out.append(s);
                proof {
                    assert(out@.skip(old(out)@.len() as int) =~= s@);
                    assert(out@ =~= old(out)@ + out@.skip(old(out)@.len() as int));
                }
            },
            Some(c) => {
                let styled = style(s, *c);
                out.append(styled.as_str());
                proof {
                    assert(out@.skip(old(out)@.len() as int) =~= styled@);
                    assert(out@ =~= old(out)@ + out@.skip(old(out)@.len() as int));
                }
            },
        }
    }

    /// Writes `(name)` at the current level: the shared rendering of a
    /// valueless terminal and of a childless non-terminal.
    fn write_flat(&self, name: &str, out: &mut String)
        ensures
            final(out)@ == old(out)@ + final(out)@.skip(old(out)@.len() as int),
            is_rendering(
                ExprView::Terminal { name: name@, value: None },
                self.level as nat,
                self.indent@,
                self.color is Some,
                final(out)@.skip(old(out)@.len() as int),
            ),
            is_rendering(
                ExprView::NonTerminal { name: name@, children: Seq::empty() },
                self.level as nat,
                self.indent@,
                self.color is Some,
                final(out)@.skip(old(out)@.len() as int),
            ),
            self.color is None ==> final(out)@ == old(out)@ + rendered(
                ExprView::Terminal { name: name@, value: None },
                self.level as nat,
                self.indent@,
            ),
    {
        let ghost styled = self.color is Some;
        let ghost lvl = self.level as nat;
        let ghost ind = self.indent@;
        self.write_indent(out);
        let ghost n0 = out@.len() as int;
        self.write_str("(", out);
        let ghost po = out@.skip(n0);
        let ghost n1 = out@.len() as int;
        self.write_str(name, out);
        let ghost pn = out@.skip(n1);
        let ghost n4 = out@.len() as int;
        self.write_str(")", out);
        let ghost pc = out@.skip(n4);
        proof {
            let seg = out@.skip(old(out)@.len() as int);
            assert(seg =~= indent_rep(ind, lvl) + po + pn + pc);
            lemma_terminal_none_intro(name@, lvl, ind, styled, po, pn, pc, seg);
            lemma_nonterminal_empty_intro(name@, lvl, ind, styled, po, pn, pc, seg);
            if !styled {
                assert(seg =~= rendered(ExprView::Terminal { name: name@, value: None }, lvl, ind));
            }
            assert(out@ =~= old(out)@ + seg);
        }
    }

    /// Writes `(name: value)` at the current level: the rendering of a
    /// terminal with a value, an explicitly empty one included.
    fn write_terminal(&self, name: &str, v: &str, out: &mut String)
        ensures
            final(out)@ == old(out)@ + final(out)@.skip(old(out)@.len() as int),
            is_rendering(
                ExprView::Terminal { name: name@, value: Some(v@) },
                self.level as nat,
                self.indent@,
                self.color is Some,
                final(out)@.skip(old(out)@.len() as int),
            ),
            self.color is None ==> final(out)@ == old(out)@ + rendered(
                ExprView::Terminal { name: name@, value: Some(v@) },
                self.level as nat,
                self.indent@,
            ),
    {
        let ghost styled = self.color is Some;
        let ghost lvl = self.level as nat;
        let ghost ind = self.indent@;
        self.write_indent(out);
        let ghost n0 = out@.len() as int;
        self.write_str("(", out);
        let ghost po = out@.skip(n0);
        let ghost n1 = out@.len() as int;
        self.write_str(name, out);
        let ghost pn = out@.skip(n1);
        let ghost n2 = out@.len() as int;
        self.write_str(": ", out);
        let ghost pm = out@.skip(n2);
        let ghost n3 = out@.len() as int;
        self.write_str(v, out);
        let ghost pv = out@.skip(n3);
        let ghost n4 = out@.len() as int;
        self.write_str(")", out);
        let ghost pc = out@.skip(n4);
        proof {
            let seg = out@.skip(old(out)@.len() as int);
            assert(seg =~= indent_rep(ind, lvl) + po + pn + pm + pv + pc);
            lemma_terminal_some_intro(name@, v@, lvl, ind, styled, po, pn, pm, pv, pc, seg);
            if !styled {
                assert(seg =~= rendered(
                    ExprView::Terminal { name: name@, value: Some(v@) },
                    lvl,
                    ind,
                ));
            }
            assert(out@ =~= old(out)@ + seg);
        }
    }

    /// Renders an expression into the sink at the current nesting level.
    ///
    /// Without a color the output is exactly `rendered`; with a color every
    /// piece of text or punctuation may carry styling around it, as
    /// `is_rendering` describes; the formatter itself comes back unchanged.
    #[verifier::rlimit(100)]
    pub fn fmt(&mut self, expression: &Expression, out: &mut String)
        requires
            old(self).level + depth(expression@) <= usize::MAX,
        ensures
            final(self).indent == old(self).indent,
            final(self).level == old(self).level,
            final(self).color == old(self).color,
            final(out)@ == old(out)@ + final(out)@.skip(old(out)@.len() as int),
            is_rendering(
                expression@,
                old(self).level as nat,
                old(self).indent@,
                old(self).color is Some,
                final(out)@.skip(old(out)@.len() as int),
            ),
            old(self).color is None ==> final(out)@ == old(out)@ + rendered(
                expression@,
                old(self).level as nat,
                old(self).indent@,
            ),
        decreases expression,
    {
        let ghost styled = self.color is Some;
        let ghost lvl = self.level as nat;
        let ghost ind = self.indent@;
        match expression {
            Expression::Terminal { name, value } => match value {
                Some(v) => {
                    self.write_terminal(name.as_str(), v.as_str(), out);
                    proof {
                        assert(expression@ == ExprView::Terminal { name: name@, value: Some(v@) });
                    }
                },
                None => {
                    self.write_flat(name.as_str(), out);
                    proof {
                        assert(expression@ == ExprView::Terminal {
                            name: name@,
                            value: None::<Seq<char>>,
                        });
                    }
                },
            },
            Expression::NonTerminal { name, children } => {
                if children.len() == 0 {
                    self.write_flat(name.as_str(), out);
                    proof {
                        assert(expression@->NonTerminal_children =~= Seq::<ExprView>::empty());
                        assert(expression@ == ExprView::NonTerminal {
                            name: name@,
                            children: Seq::<ExprView>::empty(),
                        });
                        lemma_render_collapse(name@, lvl, ind);
                    }
                } else {
                    let ghost cviews = expression@->NonTerminal_children;
                    proof {
                        assert(depth(expression@) >= 1);
                    }
                    self.write_indent(out);
                    let ghost n0 = out@.len() as int;
                    self.write_str("(", out);
                    let ghost po = out@.skip(n0);
                    let ghost n1 = out@.len() as int;
                    self.write_str(name.as_str(), out);
                    let ghost pn = out@.skip(n1);
                    self.write_newline(out);
                    let ghost pre_body = out@;
                    self.level = self.level + 1;
                    let m = children.len();
                    proof {
                        assert(cviews.take(0) =~= Seq::<ExprView>::empty());
                        assert(out@.skip(pre_body.len() as int) =~= Seq::<char>::empty());
                        assert(are_renderings(
                            cviews.take(0),
                            lvl + 1,
                            ind,
                            styled,
                            out@.skip(pre_body.len() as int),
                        ));
                        assert(out@ =~= pre_body + Seq::<char>::empty());
                        assert(out@ =~= pre_body + rendered_children(cviews.take(0), lvl + 1, ind));
                    }
                    #[verifier::loop_isolation(false)]
                    for i in 0..m
                        invariant
                            m == children.len(),
                            self.level == lvl + 1,
                            self.indent == old(self).indent,
                            self.color == old(self).color,
                            pre_body.is_prefix_of(out@),
                            out@ == pre_body + out@.skip(pre_body.len() as int),
                            are_renderings(
                                cviews.take(i as int),
                                lvl + 1,
                                ind,
                                styled,
                                out@.skip(pre_body.len() as int),
                            ),
                            !styled ==> out@ == pre_body + rendered_children(
                                cviews.take(i as int),
                                lvl + 1,
                                ind,
                            ),
                        decreases m - i,
                    {
                        proof {
                            assert(decreases_to!(*expression => *children));
                            assert(decreases_to!(*children => children[i as int]));
                            assert(cviews[i as int] == children[i as int]@);
                            lemma_depth_max_ge(cviews, i as int);
                        }
                        let ghost done = out@.skip(pre_body.len() as int);
                        let ghost nc = out@.len() as int;
                        self.fmt(&children[i], out);
                        let ghost sc = out@.skip(nc);
                        self.write_newline(out);
                        proof {
                            lemma_are_renderings_snoc(
                                cviews.take(i as int),
                                cviews[i as int],
                                lvl + 1,
                                ind,
                                styled,
                                done,
                                sc,
                            );
                            assert(cviews.take(i as int).push(cviews[i as int]) =~= cviews.take(
                                i + 1,
                            ));
                            assert(out@.skip(pre_body.len() as int) =~= done + sc + seq!['\n']);
                            assert(out@ =~= pre_body + out@.skip(pre_body.len() as int));
                            if !styled {
                                lemma_rendered_children_snoc(
                                    cviews.take(i as int),
                                    cviews[i as int],
                                    lvl + 1,
                                    ind,
                                );
                                assert(out@ =~= pre_body + rendered_children(
                                    cviews.take(i + 1),
                                    lvl + 1,
                                    ind,
                                ));
                            }
                        }
                    }
                    proof {
                        assert(cviews.take(m as int) =~= cviews);
                    }
                    let ghost body = out@.skip(pre_body.len() as int);
                    self.level = self.level - 1;
                    self.write_indent(out);
                    let ghost n4 = out@.len() as int;
                    self.write_str(")", out);
                    let ghost pc = out@.skip(n4);
                    proof {
                        let seg = out@.skip(old(out)@.len() as int);
                        assert(seg =~= indent_rep(ind, lvl) + po + pn + seq!['\n'] + body
                            + indent_rep(ind, lvl) + pc);
                        lemma_nonterminal_intro(
                            name@,
                            cviews,
                            lvl,
                            ind,
                            styled,
                            po,
                            pn,
                            body,
                            pc,
                            seg,
                        );
                        assert(expression@ == ExprView::NonTerminal {
                            name: name@,
                            children: cviews,
                        });
                        if !styled {
                            assert(seg =~= rendered(expression@, lvl, ind));
                            assert(out@ =~= old(out)@ + rendered(expression@, lvl, ind));
                        }
                        assert(out@ =~= old(out)@ + seg);
                    }
                }
            },
        }
    }
}

/// Appending one child extends a child-list rendering by that child's
/// rendering and a line break.
proof fn lemma_are_renderings_snoc(
    cs: Seq<ExprView>,
    x: ExprView,
    level: nat,
    ind: Seq<char>,
    styled: bool,
    seg: Seq<char>,
    sx: Seq<char>,
)
    requires
        are_renderings(cs, level, ind, styled, seg),
        is_rendering(x, level, ind, styled, sx),
    ensures
        are_renderings(cs.push(x), level, ind, styled, seg + sx + seq!['\n']),
    decreases cs.len(),
{
    if cs.len() == 0 {
        assert(cs.push(x)[0] == x);
        assert(cs.push(x).drop_first() =~= Seq::<ExprView>::empty());
        assert(is_rendering(cs.push(x)[0], level, ind, styled, sx));
        assert(are_renderings(
            cs.push(x).drop_first(),
            level,
            ind,
            styled,
            Seq::<char>::empty(),
        ));
        assert(seg + sx + seq!['\n'] =~= sx + seq!['\n'] + Seq::<char>::empty());
        assert(are_renderings(cs.push(x), level, ind, styled, seg + sx + seq!['\n']));
    } else {
        let (s0, rest) = choose|s0: Seq<char>, rest: Seq<char>|
            is_rendering(cs[0], level, ind, styled, s0) && are_renderings(
                cs.drop_first(),
                level,
                ind,
                styled,
                rest,
            ) && seg == s0 + seq!['\n'] + rest;
        lemma_are_renderings_snoc(cs.drop_first(), x, level, ind, styled, rest, sx);
        assert(cs.push(x)[0] == cs[0]);
        assert(cs.push(x).drop_first() =~= cs.drop_first().push(x));
        assert(is_rendering(cs.push(x)[0], level, ind, styled, s0));
        assert(are_renderings(
            cs.push(x).drop_first(),
            level,
            ind,
            styled,
            rest + sx + seq!['\n'],
        ));
        assert(seg + sx + seq!['\n'] =~= s0 + seq!['\n'] + (rest + sx + seq!['\n']));
        assert(are_renderings(cs.push(x), level, ind, styled, seg + sx + seq!['\n']));
    }
}

/// Appending one child extends a plain child-list rendering by that
/// child's plain rendering and a line break.
proof fn lemma_rendered_children_snoc(cs: Seq<ExprView>, x: ExprView, level: nat, ind: Seq<char>)
    ensures
        rendered_children(cs.push(x), level, ind) == rendered_children(cs, level, ind) + rendered(
            x,
            level,
            ind,
        ) + seq!['\n'],
    decreases cs.len(),
{
    if cs.len() == 0 {
        assert(cs.push(x)[0] == x);
        assert(cs.push(x).drop_first() =~= Seq::<ExprView>::empty());
        assert(rendered_children(cs.push(x).drop_first(), level, ind) == Seq::<char>::empty());
        assert(rendered_children(cs.push(x), level, ind) =~= rendered_children(cs, level, ind)
            + rendered(x, level, ind) + seq!['\n']);
    } else {
        assert(cs.push(x)[0] == cs[0]);
        assert(cs.push(x).drop_first() =~= cs.drop_first().push(x));
        lemma_rendered_children_snoc(cs.drop_first(), x, level, ind);
        assert(rendered_children(cs.push(x), level, ind) == rendered(cs[0], level, ind)
            + seq!['\n'] + rendered_children(cs.drop_first().push(x), level, ind));
        assert(rendered_children(cs.push(x), level, ind) =~= rendered_children(cs, level, ind)
            + rendered(x, level, ind) + seq!['\n']);
    }
}

/// The intentional presentation collapse: a valueless terminal and a
/// childless non-terminal of the same name render to byte-identical text,
/// `(name)`, at every level and with every indent unit.
pub proof fn lemma_render_collapse(name: Seq<char>, level: nat, ind: Seq<char>)
    ensures
        rendered(ExprView::Terminal { name, value: None }, level, ind) == rendered(
            ExprView::NonTerminal { name, children: Seq::empty() },
            level,
            ind,
        ),
{
}

/// A rendering at nesting level `l` opens with `l` copies of the indent
/// unit.
pub proof fn lemma_rendered_indent_prefix(e: ExprView, level: nat, ind: Seq<char>)
    ensures
        indent_rep(ind, level).is_prefix_of(rendered(e, level, ind)),
{
    let p = indent_rep(ind, level);
    match e {
        ExprView::Terminal { name, value } => match value {
            Some(v) => {
                assert((p + "("@ + name + ": "@ + v + ")"@).subrange(0, p.len() as int) =~= p);
            },
            None => {
                assert((p + "("@ + name + ")"@).subrange(0, p.len() as int) =~= p);
            },
        },
        ExprView::NonTerminal { name, children } => {
            if children.len() == 0 {
                assert((p + "("@ + name + ")"@).subrange(0, p.len() as int) =~= p);
            } else {
                assert((p + "("@ + name + seq!['\n'] + rendered_children(children, level + 1, ind)
                    + p + ")"@).subrange(0, p.len() as int) =~= p);
            }
        },
    }
}

/// Repeating the indent unit once per level yields `level` times its
/// length in characters.
pub proof fn lemma_indent_rep_len(ind: Seq<char>, n: nat)
    ensures
        indent_rep(ind, n).len() == n * ind.len(),
    decreases n,
{
    if n > 0 {
        let m: nat = (n - 1) as nat;
        lemma_indent_rep_len(ind, m);
        assert(indent_rep(ind, n) == indent_rep(ind, m) + ind);
        assert(indent_rep(ind, n).len() == indent_rep(ind, m).len() + ind.len());
        assert(indent_rep(ind, m).len() == m * ind.len());
        assert(m * ind.len() + ind.len() == n * ind.len()) by (nonlinear_arith)
            requires
                m + 1 == n,
        ;
    } else {
        assert(indent_rep(ind, n).len() == 0);
        assert(n * ind.len() == 0) by (nonlinear_arith)
            requires
                n == 0,
        ;
    }
}

/// Each child of a child list stands in the list's rendering as its own
/// rendering followed by a line break.
proof fn lemma_rendered_children_split(cs: Seq<ExprView>, level: nat, ind: Seq<char>, i: int)
    requires
        0 <= i < cs.len(),
    ensures
        exists|pre: Seq<char>, post: Seq<char>|
            rendered_children(cs, level, ind) == #[trigger] (pre + (rendered(cs[i], level, ind)
                + seq!['\n']) + post),
    decreases i,
{
    if i == 0 {
        let pre = Seq::<char>::empty();
        let post = rendered_children(cs.drop_first(), level, ind);
        assert(rendered_children(cs, level, ind) =~= pre + (rendered(cs[0], level, ind)
            + seq!['\n']) + post);
    } else {
        lemma_rendered_children_split(cs.drop_first(), level, ind, i - 1);
        let (pre2, post2) = choose|pre2: Seq<char>, post2: Seq<char>|
            rendered_children(cs.drop_first(), level, ind) == #[trigger] (pre2 + (rendered(
                cs.drop_first()[i - 1],
                level,
                ind,
            ) + seq!['\n']) + post2);
        let pre = rendered(cs[0], level, ind) + seq!['\n'] + pre2;
        assert(cs.drop_first()[i - 1] == cs[i]);
        assert(rendered_children(cs, level, ind) =~= pre + (rendered(cs[i], level, ind)
            + seq!['\n']) + post2);
    }
}

/// Indentation of children: in the rendering of a non-terminal at nesting
/// level `l`, each child stands as its own rendering one level deeper
/// followed by a line break, and that rendering opens with `(l+1)` copies
/// of the indent unit — `(l+1) * |ind|` characters.
pub proof fn lemma_child_indentation(e: ExprView, level: nat, ind: Seq<char>, i: int)
    requires
        e is NonTerminal,
        0 <= i < e->NonTerminal_children.len(),
    ensures
        exists|pre: Seq<char>, post: Seq<char>|
            rendered(e, level, ind) == #[trigger] (pre + (rendered(
                e->NonTerminal_children[i],
                level + 1,
                ind,
            ) + seq!['\n']) + post),
        indent_rep(ind, level + 1).is_prefix_of(
            rendered(e->NonTerminal_children[i], level + 1, ind),
        ),
        indent_rep(ind, level + 1).len() == (level + 1) * ind.len(),
{
    let cs = e->NonTerminal_children;
    let name = e->NonTerminal_name;
    lemma_rendered_indent_prefix(cs[i], level + 1, ind);
    lemma_indent_rep_len(ind, level + 1);
    lemma_rendered_children_split(cs, level + 1, ind, i);
    let (pre2, post2) = choose|pre2: Seq<char>, post2: Seq<char>|
        rendered_children(cs, level + 1, ind) == #[trigger] (pre2 + (rendered(
            cs[i],
            level + 1,
            ind,
        ) + seq!['\n']) + post2);
    let pre = indent_rep(ind, level) + "("@ + name + seq!['\n'] + pre2;
    let post = post2 + indent_rep(ind, level) + ")"@;
    assert(rendered(e, level, ind) =~= pre + (rendered(cs[i], level + 1, ind) + seq!['\n'])
        + post);
}

impl Expression {
    /// Renders this expression with the default formatter settings: a
    /// two-space indent unit, outermost level, no color.
    pub fn to_text(&self) -> (r: String)
        requires
            depth(self@) <= usize::MAX,
        ensures
            r@ == rendered(self@, 0, "  "@),
    {
        let mut f = ExpressionFormatter::from_defaults();
        let mut out = String::new();
        f.fmt(self, &mut out);
        out
    }
}

} // verus!
