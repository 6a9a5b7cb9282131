//! Detection of `list.map(callback)` loop patterns and the rewrite that
//! marks the callback's returned markup with the for-loop attributes.

use vstd::prelude::*;

use crate::attrs::{spec_for_key, spec_for_key_key, spec_sid, for_key, for_key_key, sid_value};
use crate::chars::str_eq;
use crate::chars::str_starts_with;
use crate::node::{
    Attr, AttrValue, AttrV, AttrValueV, Element, ElementName, ElementV, Expr, ExprV, MemberProp,
    MemberPropV, NameV, NodeV, RenderNode, Stmt, StmtV, ArrowBody, ArrowBodyV, attrs_view,
    exprs_view, element_view, expr_view, node_view, nodes_view, stmt_view, stmts_view,
    lemma_attrs_view, lemma_attrs_view_add, lemma_exprs_view, lemma_stmts_view,
    create_jsx_bool_attr, create_jsx_lit_attr,
};

verus! {

/// The callee of a loop call: a member access whose property is `map`.
pub open spec fn spec_is_loop_callee(callee: ExprV) -> bool {
    callee matches ExprV::Member(_, MemberPropV::Ident(p)) && p == "map"@
}

/// A loop call: a `.map` callee whose first argument is a function or arrow
/// expression.
pub open spec fn spec_is_loop_call(callee: ExprV, args: Seq<ExprV>) -> bool {
    spec_is_loop_callee(callee) && args.len() > 0 && (args[0] is Func || args[0] is Arrow)
}

/// Whether `callee_expr(args)` is a `list.map(callback)` pattern.
pub fn is_call_expr_of_loop(callee_expr: &Expr, args: &Vec<Expr>) -> (r: bool)
    ensures
        r == spec_is_loop_call(callee_expr@, exprs_view(args@)),
{
    proof {
        lemma_exprs_view(args@);
        reveal_strlit("map");
    }
    let callee_hit = match callee_expr {
        Expr::Member(_, MemberProp::Ident(p)) => str_eq(p.as_str(), "map"),
        _ => false,
    };
    if !callee_hit {
        return false;
    }
    if args.len() == 0 {
        return false;
    }
    match &args[0] {
        Expr::Func(_) => true,
        Expr::Arrow(_) => true,
        _ => {
            proof {
                assert(!(expr_view(args@[0]) is Func));
                assert(!(expr_view(args@[0]) is Arrow));
            }
            false
        },
    }
}

/// A render-function call: the callee is an identifier, or a member property,
/// whose name starts with `render`.
pub open spec fn spec_is_render_fn(e: ExprV) -> bool {
    match e {
        ExprV::Member(_, MemberPropV::Ident(p)) => "render"@.is_prefix_of(p),
        ExprV::Ident(n) => "render"@.is_prefix_of(n),
        _ => false,
    }
}

/// Whether the callee names a render function; such a call signals dynamic
/// content but is never rewritten.
pub fn is_render_fn(callee_expr: &Expr) -> (r: bool)
    ensures
        r == spec_is_render_fn(callee_expr@),
{
    match callee_expr {
        Expr::Member(_, MemberProp::Ident(p)) => str_starts_with(p.as_str(), "render"),
        Expr::Ident(n) => str_starts_with(n.as_str(), "render"),
        _ => false,
    }
}

/// The two attributes every rewritten loop body gains: the boolean for-loop
/// marker and the for-key attribute holding the literal `sid`.
pub open spec fn loop_attrs() -> Seq<AttrV> {
    seq![
        AttrV { key: spec_for_key(), value: None },
        AttrV { key: spec_for_key_key(), value: Some(AttrValueV::Lit(spec_sid())) },
    ]
}

/// Strips one parenthesization.
pub open spec fn spec_unparen(e: ExprV) -> ExprV {
    match e {
        ExprV::Paren(inner) => *inner,
        _ => e,
    }
}

/// How a callback's return value is rewritten: after unwrapping one
/// parenthesization, an element gains the two loop attributes, a fragment is
/// promoted to a `block` element carrying them and the fragment's children,
/// and anything else is left as the unwrapped value with no rewrite.
pub open spec fn spec_loop_rewrite(rv: ExprV) -> (ExprV, bool) {
    let un = spec_unparen(rv);
    match un {
        ExprV::Element(el) => (
            ExprV::Element(
                Box::new(
                    ElementV {
                        name: el.name,
                        attrs: el.attrs + loop_attrs(),
                        children: el.children,
                        has_closing: el.has_closing,
                    },
                ),
            ),
            true,
        ),
        ExprV::Fragment(cs) => (
            ExprV::Element(
                Box::new(
                    ElementV {
                        name: NameV::Tag("block"@),
                        attrs: loop_attrs(),
                        children: cs,
                        has_closing: true,
                    },
                ),
            ),
            true,
        ),
        _ => (un, false),
    }
}

fn rewrite_loop_return(rv: Expr) -> (r: (Expr, bool))
    ensures
        (expr_view(r.0), r.1) == spec_loop_rewrite(expr_view(rv)),
{
    let ghost rv0 = rv;
    let un: Expr = match rv {
        Expr::Paren(inner) => *inner,
        other => other,
    };
    proof {
        assert(expr_view(un) == spec_unparen(expr_view(rv0)));
    }
    let ghost un0 = un;
    match un {
        Expr::Element(el) => {
            let ghost el0 = *el;
            let mut e: Element = *el;
            let ghost old_attrs = e.attrs@;
            e.attrs.push(create_jsx_bool_attr(for_key()));
            e.attrs.push(create_jsx_lit_attr(for_key_key(), sid_value().to_owned()));
            proof {
                let added = seq![e.attrs@[old_attrs.len() as int], e.attrs@[old_attrs.len() as int
                    + 1]];
                assert(e.attrs@ =~= old_attrs + added);
                lemma_attrs_view_add(old_attrs, added);
                lemma_attrs_view(added);
                assert(attrs_view(added) =~= loop_attrs());
                assert(element_view(e).attrs =~= element_view(el0).attrs + loop_attrs());
                assert(element_view(e) == (ElementV {
                    name: element_view(el0).name,
                    attrs: element_view(el0).attrs + loop_attrs(),
                    children: element_view(el0).children,
                    has_closing: element_view(el0).has_closing,
                }));
                assert(expr_view(un0) == ExprV::Element(Box::new(element_view(el0))));
            }
            (Expr::Element(Box::new(e)), true)
        },
        Expr::Fragment(cs) => {
            let ghost cs0 = cs@;
            let mut attrs: Vec<Attr> = Vec::new();
            attrs.push(create_jsx_bool_attr(for_key()));
            attrs.push(create_jsx_lit_attr(for_key_key(), sid_value().to_owned()));
            proof {
                lemma_attrs_view(attrs@);
                assert(attrs_view(attrs@) =~= loop_attrs());
            }
            let block = Element {
                name: ElementName::Tag("block".to_owned()),
                attrs,
                children: cs,
                has_closing: true,
            };
            proof {
                reveal_strlit("block");
                assert(expr_view(un0) == ExprV::Fragment(nodes_view(cs0)));
                assert(element_view(block) == (ElementV {
                    name: NameV::Tag("block"@),
                    attrs: loop_attrs(),
                    children: nodes_view(cs0),
                    has_closing: true,
                }));
            }
            (Expr::Element(Box::new(block)), true)
        },
        other => {
            proof {
                assert(expr_view(other) == expr_view(un0));
                assert(!(expr_view(un0) is Element) && !(expr_view(un0) is Fragment));
            }
            (other, false)
        },
    }
}

/// The last statement's return argument, if the block ends in `return <expr>`.
pub open spec fn spec_last_return(stmts: Seq<StmtV>) -> Option<ExprV> {
    if stmts.len() == 0 {
        None
    } else {
        match stmts.last() {
            StmtV::Return(Some(e)) => Some(*e),
            _ => None,
        }
    }
}

/// How the whole callback is rewritten: the return value found in a block
/// body's final `return`, or in a concise arrow body, goes through
/// [`spec_loop_rewrite`]; a callback without such a return value is left
/// untouched.
pub open spec fn spec_rewrite_callback(cb: ExprV) -> (ExprV, bool) {
    match cb {
        ExprV::Func(Some(stmts)) => match spec_last_return(stmts) {
            Some(rv) => {
                let r = spec_loop_rewrite(rv);
                (
                    ExprV::Func(
                        Some(stmts.update(stmts.len() - 1, StmtV::Return(Some(Box::new(r.0))))),
                    ),
                    r.1,
                )
            },
            None => (cb, false),
        },
        ExprV::Arrow(ArrowBodyV::Block(stmts)) => match spec_last_return(stmts) {
            Some(rv) => {
                let r = spec_loop_rewrite(rv);
                (
                    ExprV::Arrow(
                        ArrowBodyV::Block(
                            stmts.update(stmts.len() - 1, StmtV::Return(Some(Box::new(r.0)))),
                        ),
                    ),
                    r.1,
                )
            },
            None => (cb, false),
        },
        ExprV::Arrow(ArrowBodyV::Expr(body)) => {
            let r = spec_loop_rewrite(*body);
            (ExprV::Arrow(ArrowBodyV::Expr(Box::new(r.0))), r.1)
        },
        _ => (cb, false),
    }
}

fn rewrite_block_return(stmts: Vec<Stmt>) -> (r: (Vec<Stmt>, bool))
    ensures
        (stmts_view(r.0@), r.1) == ({
            let sv = stmts_view(stmts@);
            match spec_last_return(sv) {
                Some(rv) => {
                    let x = spec_loop_rewrite(rv);
                    (sv.update(sv.len() - 1, StmtV::Return(Some(Box::new(x.0)))), x.1)
                },
                None => (sv, false),
            }
        }),
{
    proof {
        lemma_stmts_view(stmts@);
    }
    let mut stmts = stmts;
    if stmts.len() == 0 {
        return (stmts, false);
    }
    let ghost all = stmts@;
    let last = stmts.pop().unwrap();
    match last {
        Stmt::Return(Some(rv)) => {
            let x = rewrite_loop_return(*rv);
            stmts.push(Stmt::Return(Some(Box::new(x.0))));
            proof {
                let sv = stmts_view(all);
                lemma_stmts_view(stmts@);
                assert(stmts@ =~= all.update(all.len() - 1, stmts@[all.len() - 1]));
                assert(sv.last() == stmt_view(all.last()));
                assert(stmts_view(stmts@) =~= sv.update(
                    sv.len() - 1,
                    StmtV::Return(Some(Box::new(spec_loop_rewrite(expr_view(*rv)).0))),
                ));
            }
            (stmts, x.1)
        },
        other => {
            stmts.push(other);
            proof {
                assert(stmts@ =~= all);
                let sv = stmts_view(all);
                assert(sv.last() == stmt_view(all.last()));
                assert(spec_last_return(sv) is None);
            }
            (stmts, false)
        },
    }
}

fn rewrite_callback(cb: Expr) -> (r: (Expr, bool))
    ensures
        (expr_view(r.0), r.1) == spec_rewrite_callback(expr_view(cb)),
{
    match cb {
        Expr::Func(Some(stmts)) => {
            let x = rewrite_block_return(stmts);
            (Expr::Func(Some(x.0)), x.1)
        },
        Expr::Arrow(ArrowBody::Block(stmts)) => {
            let x = rewrite_block_return(stmts);
            (Expr::Arrow(ArrowBody::Block(x.0)), x.1)
        },
        Expr::Arrow(ArrowBody::Expr(body)) => {
            let x = rewrite_loop_return(*body);
            (Expr::Arrow(ArrowBody::Expr(Box::new(x.0))), x.1)
        },
        other => (other, false),
    }
}

/// What [`extract_jsx_loop`] leaves in the argument list, and whether markup
/// was rewritten.
pub open spec fn spec_extract_jsx_loop(callee: ExprV, args: Seq<ExprV>) -> (Seq<ExprV>, bool) {
    if spec_is_loop_call(callee, args) {
        let r = spec_rewrite_callback(args[0]);
        (args.update(0, r.0), r.1)
    } else {
        (args, false)
    }
}

/// Recognizes a `list.map(callback)` call and rewrites the callback's returned
/// markup in place: a returned element gains the for-loop marker and the
/// for-key `sid` attribute; a returned fragment is promoted to a `block`
/// element carrying them. Returns whether markup was rewritten; any other
/// return shape leaves the call untouched, which is no error.
pub fn extract_jsx_loop(callee_expr: &Expr, args: &mut Vec<Expr>) -> (r: bool)
    ensures
        (exprs_view(final(args)@), r) == spec_extract_jsx_loop(
            callee_expr@,
            exprs_view(old(args)@),
        ),
{
    proof {
        lemma_exprs_view(args@);
    }
    if !is_call_expr_of_loop(callee_expr, args) {
        return false;
    }
    let ghost all = args@;
    let cb = args.remove(0);
    let x = rewrite_callback(cb);
    args.insert(0, x.0);
    proof {
        assert(args@ =~= all.update(0, x.0));
        lemma_exprs_view(args@);
        lemma_exprs_view(all);
        assert(exprs_view(args@) =~= exprs_view(all).update(0, expr_view(x.0)));
    }
    x.1
}

/// A child is a loop when it is an expression container holding a
/// `list.map(callback)` call.
pub open spec fn spec_child_is_loop(n: NodeV) -> bool {
    n matches NodeV::ExprContainer(e) && (*e matches ExprV::Call(callee, args)
        && spec_is_loop_call(*callee, args))
}

/// Whether this child is an expression container holding a loop call.
pub fn check_jsx_element_child_is_loop(child: &RenderNode) -> (r: bool)
    ensures
        r == spec_child_is_loop(child@),
{
    match child {
        RenderNode::ExprContainer(e) => match &**e {
            Expr::Call(callee, args) => is_call_expr_of_loop(callee, args),
            _ => false,
        },
        _ => false,
    }
}

/// Whether any direct child of the element is a loop call container.
pub fn check_jsx_element_children_exist_loop(el: &Element) -> (r: bool)
    ensures
        r == exists|i: int|
            0 <= i < el@.children.len() && spec_child_is_loop(el@.children[i]),
{
    proof {
        crate::node::lemma_nodes_view(el.children@);
    }
    let n = el.children.len();
    let mut i: usize = 0;
    while i < n
        invariant
            n == el.children@.len(),
            i <= n,
            el@.children.len() == n,
            forall|j: int| 0 <= j < n ==> el@.children[j] == node_view(el.children@[j]),
            forall|j: int| 0 <= j < i ==> !spec_child_is_loop(el@.children[j]),
        decreases n - i,
    {
        if check_jsx_element_child_is_loop(&el.children[i]) {
            proof {
                assert(spec_child_is_loop(el@.children[i as int]));
            }
            return true;
        }
        i = i + 1;
    }
    false
}


/// Law: a rewritten loop body that returns a single element gains exactly the
/// two loop attributes, appended in order, and no other structural change:
/// name, children and closing marker stay as they were, and the original
/// attributes stay in place.
pub proof fn lemma_loop_rewrite_element(rv: ExprV)
    requires
        spec_unparen(rv) is Element,
    ensures
        ({
            let el = *spec_unparen(rv)->Element_0;
            let r = spec_loop_rewrite(rv);
            &&& r.1
            &&& r.0 is Element
            &&& (*r.0->Element_0).name == el.name
            &&& (*r.0->Element_0).children == el.children
            &&& (*r.0->Element_0).has_closing == el.has_closing
            &&& (*r.0->Element_0).attrs.len() == el.attrs.len() + 2
            &&& (*r.0->Element_0).attrs.take(el.attrs.len() as int) == el.attrs
            &&& (*r.0->Element_0).attrs[el.attrs.len() as int] == (AttrV {
                key: spec_for_key(),
                value: None,
            })
            &&& (*r.0->Element_0).attrs[el.attrs.len() as int + 1] == (AttrV {
                key: spec_for_key_key(),
                value: Some(AttrValueV::Lit(spec_sid())),
            })
        }),
{
    let el = *spec_unparen(rv)->Element_0;
    let r = spec_loop_rewrite(rv);
    assert((*r.0->Element_0).attrs.take(el.attrs.len() as int) =~= el.attrs);
}

/// Law: a rewritten loop body that returns a fragment becomes a `block`-named
/// element with a closing tag, exactly the two loop attributes, and the
/// fragment's original children kept in order.
pub proof fn lemma_loop_rewrite_fragment(rv: ExprV)
    requires
        spec_unparen(rv) is Fragment,
    ensures
        ({
            let cs = spec_unparen(rv)->Fragment_0;
            let r = spec_loop_rewrite(rv);
            &&& r.1
            &&& r.0 is Element
            &&& (*r.0->Element_0).name == NameV::Tag("block"@)
            &&& (*r.0->Element_0).children == cs
            &&& (*r.0->Element_0).has_closing
            &&& (*r.0->Element_0).attrs == loop_attrs()
        }),
{
}

} // verus!
