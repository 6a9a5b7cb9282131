//! Resolution of chained member expressions against the known script-module
//! aliases, yielding the dotted path used for template interpolation.

use vstd::prelude::*;

use crate::chars::str_eq;
use crate::components::seq_contains_str;
use crate::node::{Expr, ExprV, MemberProp, MemberPropV, expr_view};

verus! {

/// The tag under which the auxiliary script module appears in markup.
pub open spec fn spec_script_tag() -> Seq<char> {
    "xs"@
}

/// Whether the tag names the auxiliary script module.
pub fn is_xscript(name: &str) -> (r: bool)
    ensures
        r == (name@ == spec_script_tag()),
{
    str_eq(name, "xs")
}

/// Views of the known script-module alias names.
pub open spec fn names_view(ss: Seq<String>) -> Seq<Seq<char>> {
    ss.map_values(|s: String| s@)
}

/// The dotted path of a cross-script member chain: a bare identifier base
/// resolves only when it is a known alias, a nested member base resolves
/// recursively, and anything else yields no resolution.
pub open spec fn spec_xscript_path(e: ExprV, names: Seq<Seq<char>>) -> Option<Seq<char>>
    decreases e,
{
    match e {
        ExprV::Member(obj, MemberPropV::Ident(p)) => match *obj {
            ExprV::Ident(base) => if seq_contains_str(names, base) {
                Some(base + seq!['.'] + p)
            } else {
                None
            },
            ExprV::Member(_, _) => match spec_xscript_path(*obj, names) {
                Some(o) => Some(o + seq!['.'] + p),
                None => None,
            },
            _ => None,
        },
        _ => None,
    }
}

fn names_contain(names: &Vec<String>, key: &str) -> (r: bool)
    ensures
        r == seq_contains_str(names_view(names@), key@),
{
    let n = names.len();
    let mut i: usize = 0;
    while i < n
        invariant
            n == names@.len(),
            i <= n,
            forall|j: int| 0 <= j < i ==> names_view(names@)[j] != key@,
        decreases n - i,
    {
        if str_eq(names[i].as_str(), key) {
            proof {
                assert(names_view(names@)[i as int] == key@);
            }
            return true;
        }
        i = i + 1;
    }
    false
}

/// Resolves a member chain to its dotted cross-script path, or `None` when
/// the expression is no recognized cross-script reference; that is no error,
/// the caller then falls back to the ordinary dynamic-binding path.
pub fn as_xscript_expr_string(member: &Expr, xs_module_names: &Vec<String>) -> (r: Option<String>)
    ensures
        match r {
            Some(s) => spec_xscript_path(member@, names_view(xs_module_names@)) == Some(s@),
            None => spec_xscript_path(member@, names_view(xs_module_names@)) is None,
        },
    decreases *member,
{
    proof {
        reveal_strlit(".");
    }
    match member {
        Expr::Member(obj, MemberProp::Ident(p)) => match &**obj {
            Expr::Ident(base) => {
                if names_contain(xs_module_names, base.as_str()) {
                    let mut out = base.clone();
                    out.append(".");
                    out.append(p.as_str());
                    proof {
                        assert(out@ =~= base@ + seq!['.'] + p@);
                    }
                    Some(out)
                } else {
                    None
                }
            },
            Expr::Member(_, _) => {
                let inner = as_xscript_expr_string(obj, xs_module_names);
                match inner {
                    Some(o) => {
                        let mut out = o;
                        out.append(".");
                        out.append(p.as_str());
                        proof {
                            assert(expr_view(*member) matches ExprV::Member(b, _)
                                && *b == expr_view(**obj));
                        }
                        Some(out)
                    },
                    None => None,
                }
            },
            _ => None,
        },
        _ => None,
    }
}

} // verus!
