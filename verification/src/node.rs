//! The render tree that the transform passes operate on: a closed tagged
//! union over elements, fragments, expression containers, text and spreads,
//! with the slice of the expression language that the passes inspect.
//!
//! Each runtime type has a ghost mirror (`...V`) built from `Seq` and the
//! mirrors of its parts; contracts speak of those mirrors.

use vstd::prelude::*;

use crate::chars::ws_only;

verus! {

/// An element's name: a static tag or a dynamic identifier expression.
pub enum ElementName {
    Tag(String),
    Dynamic(Box<Expr>),
}

/// An attribute value: a literal or an expression reference.
pub enum AttrValue {
    Lit(String),
    Expr(Box<Expr>),
}

/// One attribute of an opening tag; a missing value is a boolean attribute.
pub struct Attr {
    pub key: String,
    pub value: Option<AttrValue>,
}

/// An element: name, ordered attributes, ordered children, and whether it
/// carries a closing tag.
pub struct Element {
    pub name: ElementName,
    pub attrs: Vec<Attr>,
    pub children: Vec<RenderNode>,
    pub has_closing: bool,
}

/// One node of the render tree.
pub enum RenderNode {
    Element(Box<Element>),
    Fragment(Vec<RenderNode>),
    ExprContainer(Box<Expr>),
    Text(String),
    Spread(Box<Expr>),
}

/// The property position of a member access.
pub enum MemberProp {
    Ident(String),
    Other,
}

/// The body of an arrow function: a statement block or a concise expression.
pub enum ArrowBody {
    Block(Vec<Stmt>),
    Expr(Box<Expr>),
}

/// A statement, reduced to what the loop detector inspects.
pub enum Stmt {
    Return(Option<Box<Expr>>),
    Other,
}

/// The slice of the expression language the passes inspect. `Other` stands
/// for an expression with no template-relevant structure inside.
pub enum Expr {
    Ident(String),
    Member(Box<Expr>, MemberProp),
    Call(Box<Expr>, Vec<Expr>),
    Func(Option<Vec<Stmt>>),
    Arrow(ArrowBody),
    Paren(Box<Expr>),
    Element(Box<Element>),
    Fragment(Vec<RenderNode>),
    Other,
}

/// Ghost mirror of [`ElementName`].
pub enum NameV {
    Tag(Seq<char>),
    Dynamic(Box<ExprV>),
}

/// Ghost mirror of [`AttrValue`].
pub enum AttrValueV {
    Lit(Seq<char>),
    Expr(Box<ExprV>),
}

/// Ghost mirror of [`Attr`].
pub struct AttrV {
    pub key: Seq<char>,
    pub value: Option<AttrValueV>,
}

/// Ghost mirror of [`Element`].
pub struct ElementV {
    pub name: NameV,
    pub attrs: Seq<AttrV>,
    pub children: Seq<NodeV>,
    pub has_closing: bool,
}

/// Ghost mirror of [`RenderNode`].
pub enum NodeV {
    Element(ElementV),
    Fragment(Seq<NodeV>),
    ExprContainer(Box<ExprV>),
    Text(Seq<char>),
    Spread(Box<ExprV>),
}

/// Ghost mirror of [`MemberProp`].
pub enum MemberPropV {
    Ident(Seq<char>),
    Other,
}

/// Ghost mirror of [`ArrowBody`].
pub enum ArrowBodyV {
    Block(Seq<StmtV>),
    Expr(Box<ExprV>),
}

/// Ghost mirror of [`Stmt`].
pub enum StmtV {
    Return(Option<Box<ExprV>>),
    Other,
}

/// Ghost mirror of [`Expr`].
pub enum ExprV {
    Ident(Seq<char>),
    Member(Box<ExprV>, MemberPropV),
    Call(Box<ExprV>, Seq<ExprV>),
    Func(Option<Seq<StmtV>>),
    Arrow(ArrowBodyV),
    Paren(Box<ExprV>),
    Element(Box<ElementV>),
    Fragment(Seq<NodeV>),
    Other,
}

pub open spec fn name_view(n: ElementName) -> NameV
    decreases n,
{
    match n {
        ElementName::Tag(s) => NameV::Tag(s@),
        ElementName::Dynamic(e) => NameV::Dynamic(Box::new(expr_view(*e))),
    }
}

pub open spec fn attr_value_view(v: AttrValue) -> AttrValueV
    decreases v,
{
    match v {
        AttrValue::Lit(s) => AttrValueV::Lit(s@),
        AttrValue::Expr(e) => AttrValueV::Expr(Box::new(expr_view(*e))),
    }
}

pub open spec fn attr_view(a: Attr) -> AttrV
    decreases a,
{
    AttrV {
        key: a.key@,
        value: match a.value {
            Some(v) => Some(attr_value_view(v)),
            None => None,
        },
    }
}

pub open spec fn attrs_view(s: Seq<Attr>) -> Seq<AttrV>
    decreases s,
{
    if s.len() == 0 {
        Seq::empty()
    } else {
        seq![attr_view(s[0])] + attrs_view(s.drop_first())
    }
}

pub open spec fn element_view(e: Element) -> ElementV
    decreases e,
{
    ElementV {
        name: name_view(e.name),
        attrs: attrs_view(e.attrs@),
        children: nodes_view(e.children@),
        has_closing: e.has_closing,
    }
}

pub open spec fn nodes_view(s: Seq<RenderNode>) -> Seq<NodeV>
    decreases s,
{
    if s.len() == 0 {
        Seq::empty()
    } else {
        seq![node_view(s[0])] + nodes_view(s.drop_first())
    }
}

pub open spec fn node_view(n: RenderNode) -> NodeV
    decreases n,
{
    match n {
        RenderNode::Element(e) => NodeV::Element(element_view(*e)),
        RenderNode::Fragment(cs) => NodeV::Fragment(nodes_view(cs@)),
        RenderNode::ExprContainer(e) => NodeV::ExprContainer(Box::new(expr_view(*e))),
        RenderNode::Text(s) => NodeV::Text(s@),
        RenderNode::Spread(e) => NodeV::Spread(Box::new(expr_view(*e))),
    }
}

pub open spec fn stmt_view(s: Stmt) -> StmtV
    decreases s,
{
    match s {
        Stmt::Return(Some(e)) => StmtV::Return(Some(Box::new(expr_view(*e)))),
        Stmt::Return(None) => StmtV::Return(None),
        Stmt::Other => StmtV::Other,
    }
}

pub open spec fn stmts_view(s: Seq<Stmt>) -> Seq<StmtV>
    decreases s,
{
    if s.len() == 0 {
        Seq::empty()
    } else {
        seq![stmt_view(s[0])] + stmts_view(s.drop_first())
    }
}

pub open spec fn exprs_view(s: Seq<Expr>) -> Seq<ExprV>
    decreases s,
{
    if s.len() == 0 {
        Seq::empty()
    } else {
        seq![expr_view(s[0])] + exprs_view(s.drop_first())
    }
}

pub open spec fn expr_view(e: Expr) -> ExprV
    decreases e,
{
    match e {
        Expr::Ident(s) => ExprV::Ident(s@),
        Expr::Member(obj, prop) => ExprV::Member(
            Box::new(expr_view(*obj)),
            match prop {
                MemberProp::Ident(s) => MemberPropV::Ident(s@),
                MemberProp::Other => MemberPropV::Other,
            },
        ),
        Expr::Call(callee, args) => ExprV::Call(Box::new(expr_view(*callee)), exprs_view(args@)),
        Expr::Func(Some(stmts)) => ExprV::Func(Some(stmts_view(stmts@))),
        Expr::Func(None) => ExprV::Func(None),
        Expr::Arrow(ArrowBody::Block(stmts)) => ExprV::Arrow(ArrowBodyV::Block(stmts_view(stmts@))),
        Expr::Arrow(ArrowBody::Expr(body)) => ExprV::Arrow(
            ArrowBodyV::Expr(Box::new(expr_view(*body))),
        ),
        Expr::Paren(inner) => ExprV::Paren(Box::new(expr_view(*inner))),
        Expr::Element(el) => ExprV::Element(Box::new(element_view(*el))),
        Expr::Fragment(cs) => ExprV::Fragment(nodes_view(cs@)),
        Expr::Other => ExprV::Other,
    }
}

impl View for Element {
    type V = ElementV;

    open spec fn view(&self) -> ElementV {
        element_view(*self)
    }
}

impl View for RenderNode {
    type V = NodeV;

    open spec fn view(&self) -> NodeV {
        node_view(*self)
    }
}

impl View for Expr {
    type V = ExprV;

    open spec fn view(&self) -> ExprV {
        expr_view(*self)
    }
}

impl View for Attr {
    type V = AttrV;

    open spec fn view(&self) -> AttrV {
        attr_view(*self)
    }
}


pub proof fn lemma_attrs_view(s: Seq<Attr>)
    ensures
        attrs_view(s).len() == s.len(),
        forall|i: int| 0 <= i < s.len() ==> attrs_view(s)[i] == attr_view(s[i]),
    decreases s.len(),
{
    if s.len() > 0 {
        lemma_attrs_view(s.drop_first());
    }
}

pub proof fn lemma_nodes_view(s: Seq<RenderNode>)
    ensures
        nodes_view(s).len() == s.len(),
        forall|i: int| 0 <= i < s.len() ==> nodes_view(s)[i] == node_view(s[i]),
    decreases s.len(),
{
    if s.len() > 0 {
        lemma_nodes_view(s.drop_first());
    }
}

pub proof fn lemma_stmts_view(s: Seq<Stmt>)
    ensures
        stmts_view(s).len() == s.len(),
        forall|i: int| 0 <= i < s.len() ==> stmts_view(s)[i] == stmt_view(s[i]),
    decreases s.len(),
{
    if s.len() > 0 {
        lemma_stmts_view(s.drop_first());
    }
}

pub proof fn lemma_exprs_view(s: Seq<Expr>)
    ensures
        exprs_view(s).len() == s.len(),
        forall|i: int| 0 <= i < s.len() ==> exprs_view(s)[i] == expr_view(s[i]),
    decreases s.len(),
{
    if s.len() > 0 {
        lemma_exprs_view(s.drop_first());
    }
}

pub proof fn lemma_attrs_view_add(a: Seq<Attr>, b: Seq<Attr>)
    ensures
        attrs_view(a + b) == attrs_view(a) + attrs_view(b),
    decreases a.len(),
{
    if a.len() == 0 {
        assert(a + b =~= b);
        assert(attrs_view(a) + attrs_view(b) =~= attrs_view(b));
    } else {
        lemma_attrs_view_add(a.drop_first(), b);
        assert((a + b).drop_first() =~= a.drop_first() + b);
        assert((a + b)[0] == a[0]);
        assert(attrs_view(a + b) =~= attrs_view(a) + attrs_view(b));
    }
}

pub proof fn lemma_nodes_view_add(a: Seq<RenderNode>, b: Seq<RenderNode>)
    ensures
        nodes_view(a + b) == nodes_view(a) + nodes_view(b),
    decreases a.len(),
{
    if a.len() == 0 {
        assert(a + b =~= b);
        assert(nodes_view(a) + nodes_view(b) =~= nodes_view(b));
    } else {
        lemma_nodes_view_add(a.drop_first(), b);
        assert((a + b).drop_first() =~= a.drop_first() + b);
        assert((a + b)[0] == a[0]);
        assert(nodes_view(a + b) =~= nodes_view(a) + nodes_view(b));
    }
}


/// A self-closing element expression with the given name and attributes.
pub fn create_self_closing_jsx_element_expr(name: ElementName, attrs: Option<Vec<Attr>>) -> (r:
    Expr)
    ensures
        r@ == ExprV::Element(
            Box::new(
                ElementV {
                    name: name_view(name),
                    attrs: match attrs {
                        Some(a) => attrs_view(a@),
                        None => Seq::empty(),
                    },
                    children: Seq::empty(),
                    has_closing: false,
                },
            ),
        ),
{
    let a: Vec<Attr> = match attrs {
        Some(a) => a,
        None => Vec::new(),
    };
    let r = Expr::Element(
        Box::new(Element { name, attrs: a, children: Vec::new(), has_closing: false }),
    );
    proof {
        assert(attrs_view(a@) =~= (match attrs {
            Some(a) => attrs_view(a@),
            None => Seq::<AttrV>::empty(),
        }));
        assert(nodes_view(Seq::<RenderNode>::empty()) =~= Seq::<NodeV>::empty());
        let elv = r->Element_0;
        assert(r@ == ExprV::Element(Box::new(element_view(*elv))));
        assert(elv.name == name);
        assert(element_view(*elv).name == name_view(name));
        assert(element_view(*elv).attrs == attrs_view(a@));
        assert(element_view(*elv).children == nodes_view(Seq::<RenderNode>::empty()));
    }
    r
}

/// An attribute whose value is an expression reference.
pub fn create_jsx_expr_attr(name: &str, expr: Box<Expr>) -> (r: Attr)
    ensures
        r@ == (AttrV { key: name@, value: Some(AttrValueV::Expr(Box::new(expr_view(*expr)))) }),
{
    Attr { key: name.to_owned(), value: Some(AttrValue::Expr(expr)) }
}

/// A boolean attribute: a key with no value.
pub fn create_jsx_bool_attr(name: &str) -> (r: Attr)
    ensures
        r@ == (AttrV { key: name@, value: None }),
{
    Attr { key: name.to_owned(), value: None }
}

/// An attribute with a literal value.
pub fn create_jsx_lit_attr(name: &str, lit: String) -> (r: Attr)
    ensures
        r@ == (AttrV { key: name@, value: Some(AttrValueV::Lit(lit@)) }),
{
    Attr { key: name.to_owned(), value: Some(AttrValue::Lit(lit)) }
}

/// A node is static when it has no attributes and only plain-text children.
pub open spec fn spec_is_static(e: ElementV) -> bool {
    e.attrs.len() == 0 && forall|i: int| 0 <= i < e.children.len() ==> e.children[i] is Text
}

/// Whether an element may take the cheapest, non-reactive template emission:
/// it has zero attributes and every child is plain text.
pub fn is_static_jsx(el: &Element) -> (r: bool)
    ensures
        r == spec_is_static(el@),
{
    proof {
        lemma_nodes_view(el.children@);
    }
    if el.attrs.len() > 0 {
        proof {
            lemma_attrs_view(el.attrs@);
        }
        return false;
    }
    proof {
        lemma_attrs_view(el.attrs@);
    }
    let n = el.children.len();
    let mut i: usize = 0;
    while i < n
        invariant
            n == el.children.len(),
            i <= n,
            forall|j: int| 0 <= j < i ==> el@.children[j] is Text,
            el@.children.len() == n,
            forall|j: int| 0 <= j < n ==> el@.children[j] == node_view(el.children@[j]),
        decreases n - i,
    {
        match &el.children[i] {
            RenderNode::Text(_) => {},
            _ => {
                proof {
                    assert(!(node_view(el.children@[i as int]) is Text));
                    assert(!spec_is_static(el@)) by {
                        if spec_is_static(el@) {
                            assert(el@.children[i as int] is Text);
                        }
                    };
                }
                return false;
            },
        }
        i = i + 1;
    }
    true
}


/// An attribute is itself an interpolation site when its value is an
/// expression reference.
pub open spec fn attr_has_container(a: AttrV) -> bool {
    a.value matches Some(AttrValueV::Expr(_))
}

pub open spec fn attrs_have_container(s: Seq<AttrV>) -> bool
    decreases s,
{
    if s.len() == 0 {
        false
    } else {
        attr_has_container(s[0]) || attrs_have_container(s.drop_first())
    }
}

pub open spec fn name_has_container(n: NameV) -> bool
    decreases n,
{
    match n {
        NameV::Tag(_) => false,
        NameV::Dynamic(e) => expr_has_container(*e),
    }
}

pub open spec fn element_has_container(el: ElementV) -> bool
    decreases el,
{
    name_has_container(el.name) || attrs_have_container(el.attrs) || nodes_have_container(
        el.children,
    )
}

pub open spec fn nodes_have_container(s: Seq<NodeV>) -> bool
    decreases s,
{
    if s.len() == 0 {
        false
    } else {
        node_has_container(s[0]) || nodes_have_container(s.drop_first())
    }
}

/// Whether an expression container stands anywhere in the subtree.
pub open spec fn node_has_container(n: NodeV) -> bool
    decreases n,
{
    match n {
        NodeV::Element(el) => element_has_container(el),
        NodeV::Fragment(cs) => nodes_have_container(cs),
        NodeV::ExprContainer(_) => true,
        NodeV::Text(_) => false,
        NodeV::Spread(e) => expr_has_container(*e),
    }
}

pub open spec fn stmt_has_container(s: StmtV) -> bool
    decreases s,
{
    match s {
        StmtV::Return(Some(e)) => expr_has_container(*e),
        StmtV::Return(None) => false,
        StmtV::Other => false,
    }
}

pub open spec fn stmts_have_container(s: Seq<StmtV>) -> bool
    decreases s,
{
    if s.len() == 0 {
        false
    } else {
        stmt_has_container(s[0]) || stmts_have_container(s.drop_first())
    }
}

pub open spec fn exprs_have_container(s: Seq<ExprV>) -> bool
    decreases s,
{
    if s.len() == 0 {
        false
    } else {
        expr_has_container(s[0]) || exprs_have_container(s.drop_first())
    }
}

pub open spec fn expr_has_container(e: ExprV) -> bool
    decreases e,
{
    match e {
        ExprV::Ident(_) => false,
        ExprV::Member(obj, _) => expr_has_container(*obj),
        ExprV::Call(callee, args) => expr_has_container(*callee) || exprs_have_container(args),
        ExprV::Func(Some(ss)) => stmts_have_container(ss),
        ExprV::Func(None) => false,
        ExprV::Arrow(ArrowBodyV::Block(ss)) => stmts_have_container(ss),
        ExprV::Arrow(ArrowBodyV::Expr(b)) => expr_has_container(*b),
        ExprV::Paren(inner) => expr_has_container(*inner),
        ExprV::Element(el) => element_has_container(*el),
        ExprV::Fragment(cs) => nodes_have_container(cs),
        ExprV::Other => false,
    }
}

pub proof fn lemma_nodes_have_container(s: Seq<NodeV>)
    ensures
        nodes_have_container(s) <==> exists|i: int|
            0 <= i < s.len() && node_has_container(s[i]),
    decreases s.len(),
{
    if s.len() > 0 {
        lemma_nodes_have_container(s.drop_first());
        if node_has_container(s[0]) {
            assert(node_has_container(s[0]) && 0 <= 0 < s.len());
        } else if nodes_have_container(s.drop_first()) {
            let i = choose|i: int|
                0 <= i < s.drop_first().len() && node_has_container(s.drop_first()[i]);
            assert(s.drop_first()[i] == s[i + 1]);
        } else {
            assert forall|i: int| 0 <= i < s.len() implies !node_has_container(s[i]) by {
                if i > 0 {
                    assert(s[i] == s.drop_first()[i - 1]);
                }
            }
        }
    }
}

pub proof fn lemma_attrs_have_container(s: Seq<AttrV>)
    ensures
        attrs_have_container(s) <==> exists|i: int|
            0 <= i < s.len() && attr_has_container(s[i]),
    decreases s.len(),
{
    if s.len() > 0 {
        lemma_attrs_have_container(s.drop_first());
        if attr_has_container(s[0]) {
            assert(attr_has_container(s[0]) && 0 <= 0 < s.len());
        } else if attrs_have_container(s.drop_first()) {
            let i = choose|i: int|
                0 <= i < s.drop_first().len() && attr_has_container(s.drop_first()[i]);
            assert(s.drop_first()[i] == s[i + 1]);
        } else {
            assert forall|i: int| 0 <= i < s.len() implies !attr_has_container(s[i]) by {
                if i > 0 {
                    assert(s[i] == s.drop_first()[i - 1]);
                }
            }
        }
    }
}

pub proof fn lemma_stmts_have_container(s: Seq<StmtV>)
    ensures
        stmts_have_container(s) <==> exists|i: int|
            0 <= i < s.len() && stmt_has_container(s[i]),
    decreases s.len(),
{
    if s.len() > 0 {
        lemma_stmts_have_container(s.drop_first());
        if stmt_has_container(s[0]) {
            assert(stmt_has_container(s[0]) && 0 <= 0 < s.len());
        } else if stmts_have_container(s.drop_first()) {
            let i = choose|i: int|
                0 <= i < s.drop_first().len() && stmt_has_container(s.drop_first()[i]);
            assert(s.drop_first()[i] == s[i + 1]);
        } else {
            assert forall|i: int| 0 <= i < s.len() implies !stmt_has_container(s[i]) by {
                if i > 0 {
                    assert(s[i] == s.drop_first()[i - 1]);
                }
            }
        }
    }
}

pub proof fn lemma_exprs_have_container(s: Seq<ExprV>)
    ensures
        exprs_have_container(s) <==> exists|i: int|
            0 <= i < s.len() && expr_has_container(s[i]),
    decreases s.len(),
{
    if s.len() > 0 {
        lemma_exprs_have_container(s.drop_first());
        if expr_has_container(s[0]) {
            assert(expr_has_container(s[0]) && 0 <= 0 < s.len());
        } else if exprs_have_container(s.drop_first()) {
            let i = choose|i: int|
                0 <= i < s.drop_first().len() && expr_has_container(s.drop_first()[i]);
            assert(s.drop_first()[i] == s[i + 1]);
        } else {
            assert forall|i: int| 0 <= i < s.len() implies !expr_has_container(s[i]) by {
                if i > 0 {
                    assert(s[i] == s.drop_first()[i - 1]);
                }
            }
        }
    }
}

fn expr_contains_container(e: &Expr) -> (r: bool)
    ensures
        r == expr_has_container(e@),
    decreases *e,
{
    match e {
        Expr::Ident(_) => false,
        Expr::Member(obj, _) => expr_contains_container(obj),
        Expr::Call(callee, args) => {
            if expr_contains_container(callee) {
                return true;
            }
            exprs_contain_container(args)
        },
        Expr::Func(Some(stmts)) => stmts_contain_container(stmts),
        Expr::Func(None) => false,
        Expr::Arrow(ArrowBody::Block(stmts)) => stmts_contain_container(stmts),
        Expr::Arrow(ArrowBody::Expr(b)) => expr_contains_container(b),
        Expr::Paren(inner) => expr_contains_container(inner),
        Expr::Element(el) => element_contains_container(el),
        Expr::Fragment(cs) => nodes_contain_container(cs),
        Expr::Other => false,
    }
}

fn exprs_contain_container(args: &Vec<Expr>) -> (r: bool)
    ensures
        r == exprs_have_container(exprs_view(args@)),
    decreases *args,
{
    proof {
        lemma_exprs_view(args@);
        lemma_exprs_have_container(exprs_view(args@));
    }
    let n = args.len();
    let mut i: usize = 0;
    while i < n
        invariant
            n == args@.len(),
            i <= n,
            forall|j: int| 0 <= j < i ==> !expr_has_container(exprs_view(args@)[j]),
            exprs_view(args@).len() == n,
            forall|j: int| 0 <= j < n ==> exprs_view(args@)[j] == expr_view(args@[j]),
            exprs_have_container(exprs_view(args@)) <==> exists|j: int|
                0 <= j < n && expr_has_container(exprs_view(args@)[j]),
        decreases n - i,
    {
        if expr_contains_container_at(args, i) {
            proof {
                assert(expr_has_container(exprs_view(args@)[i as int]));
            }
            return true;
        }
        i = i + 1;
    }
    false
}

fn expr_contains_container_at(args: &Vec<Expr>, i: usize) -> (r: bool)
    requires
        i < args@.len(),
    ensures
        r == expr_has_container(expr_view(args@[i as int])),
    decreases *args, 0nat,
{
    expr_contains_container(&args[i])
}

fn stmts_contain_container(stmts: &Vec<Stmt>) -> (r: bool)
    ensures
        r == stmts_have_container(stmts_view(stmts@)),
    decreases *stmts,
{
    proof {
        lemma_stmts_view(stmts@);
        lemma_stmts_have_container(stmts_view(stmts@));
    }
    let n = stmts.len();
    let mut i: usize = 0;
    while i < n
        invariant
            n == stmts@.len(),
            i <= n,
            forall|j: int| 0 <= j < i ==> !stmt_has_container(stmts_view(stmts@)[j]),
            stmts_view(stmts@).len() == n,
            forall|j: int| 0 <= j < n ==> stmts_view(stmts@)[j] == stmt_view(stmts@[j]),
            stmts_have_container(stmts_view(stmts@)) <==> exists|j: int|
                0 <= j < n && stmt_has_container(stmts_view(stmts@)[j]),
        decreases n - i,
    {
        let hit = match &stmts[i] {
            Stmt::Return(Some(e)) => expr_contains_container(e),
            Stmt::Return(None) => false,
            Stmt::Other => false,
        };
        proof {
            assert(hit == stmt_has_container(stmt_view(stmts@[i as int])));
        }
        if hit {
            proof {
                assert(stmt_has_container(stmts_view(stmts@)[i as int]));
            }
            return true;
        }
        i = i + 1;
    }
    false
}

fn nodes_contain_container(nodes: &Vec<RenderNode>) -> (r: bool)
    ensures
        r == nodes_have_container(nodes_view(nodes@)),
    decreases *nodes,
{
    proof {
        lemma_nodes_view(nodes@);
        lemma_nodes_have_container(nodes_view(nodes@));
    }
    let n = nodes.len();
    let mut i: usize = 0;
    while i < n
        invariant
            n == nodes@.len(),
            i <= n,
            forall|j: int| 0 <= j < i ==> !node_has_container(nodes_view(nodes@)[j]),
            nodes_view(nodes@).len() == n,
            forall|j: int| 0 <= j < n ==> nodes_view(nodes@)[j] == node_view(nodes@[j]),
            nodes_have_container(nodes_view(nodes@)) <==> exists|j: int|
                0 <= j < n && node_has_container(nodes_view(nodes@)[j]),
        decreases n - i,
    {
        if node_contains_container_at(nodes, i) {
            proof {
                assert(node_has_container(nodes_view(nodes@)[i as int]));
            }
            return true;
        }
        i = i + 1;
    }
    false
}

fn node_contains_container_at(nodes: &Vec<RenderNode>, i: usize) -> (r: bool)
    requires
        i < nodes@.len(),
    ensures
        r == node_has_container(node_view(nodes@[i as int])),
    decreases *nodes, 0nat,
{
    node_contains_container(&nodes[i])
}

fn element_contains_container(el: &Element) -> (r: bool)
    ensures
        r == element_has_container(el@),
    decreases *el,
{
    let name_hit = match &el.name {
        ElementName::Tag(_) => false,
        ElementName::Dynamic(e) => expr_contains_container(e),
    };
    if name_hit {
        return true;
    }
    proof {
        lemma_attrs_view(el.attrs@);
        lemma_attrs_have_container(attrs_view(el.attrs@));
    }
    let n = el.attrs.len();
    let mut i: usize = 0;
    while i < n
        invariant
            n == el.attrs@.len(),
            i <= n,
            forall|j: int| 0 <= j < i ==> !attr_has_container(attrs_view(el.attrs@)[j]),
            attrs_view(el.attrs@).len() == n,
            forall|j: int| 0 <= j < n ==> attrs_view(el.attrs@)[j] == attr_view(el.attrs@[j]),
            attrs_have_container(attrs_view(el.attrs@)) <==> exists|j: int|
                0 <= j < n && attr_has_container(attrs_view(el.attrs@)[j]),
            !name_has_container(name_view(el.name)),
        decreases n - i,
    {
        let hit = match &el.attrs[i].value {
            Some(AttrValue::Expr(_)) => true,
            _ => false,
        };
        proof {
            assert(hit == attr_has_container(attr_view(el.attrs@[i as int])));
        }
        if hit {
            proof {
                assert(attr_has_container(attrs_view(el.attrs@)[i as int]));
                assert(element_has_container(el@));
            }
            return true;
        }
        i = i + 1;
    }
    nodes_contain_container(&el.children)
}

fn node_contains_container(n: &RenderNode) -> (r: bool)
    ensures
        r == node_has_container(n@),
    decreases *n,
{
    match n {
        RenderNode::Element(el) => element_contains_container(el),
        RenderNode::Fragment(cs) => nodes_contain_container(cs),
        RenderNode::ExprContainer(_) => true,
        RenderNode::Text(_) => false,
        RenderNode::Spread(e) => expr_contains_container(e),
    }
}

/// Whether the child's whole subtree is free of expression containers, so the
/// runtime never needs to recompute it.
pub fn is_static_jsx_element_child(jsx_element: &RenderNode) -> (r: bool)
    ensures
        r == !node_has_container(jsx_element@),
{
    !node_contains_container(jsx_element)
}


/// The attribute key that exempts an element from compilation.
pub open spec fn spec_ignore_key() -> Seq<char> {
    "ignore"@
}

/// Runtime form of [`spec_ignore_key`].
pub fn ignore_key() -> (r: &'static str)
    ensures
        r@ == spec_ignore_key(),
{
    "ignore"
}

/// Some attribute of the element carries the ignore marker as its key.
pub open spec fn spec_has_ignore_attr(e: ElementV) -> bool {
    exists|i: int| 0 <= i < e.attrs.len() && e.attrs[i].key == spec_ignore_key()
}

/// Whether the element is marked to be left alone by the compiler.
pub fn check_jsx_element_has_compile_ignore(el: &Element) -> (r: bool)
    ensures
        r == spec_has_ignore_attr(el@),
{
    proof {
        lemma_attrs_view(el.attrs@);
    }
    let n = el.attrs.len();
    let mut i: usize = 0;
    while i < n
        invariant
            n == el.attrs@.len(),
            i <= n,
            forall|j: int| 0 <= j < i ==> el@.attrs[j].key != spec_ignore_key(),
            el@.attrs.len() == n,
            forall|j: int| 0 <= j < n ==> el@.attrs[j] == attr_view(el.attrs@[j]),
        decreases n - i,
    {
        if crate::chars::str_eq(el.attrs[i].key.as_str(), ignore_key()) {
            proof {
                assert(el@.attrs[i as int].key == spec_ignore_key());
            }
            return true;
        }
        i = i + 1;
    }
    proof {
        assert forall|j: int| 0 <= j < n implies el@.attrs[j].key != spec_ignore_key() by {}
    }
    false
}

/// Relies on `regex::Regex::new` and `regex::Regex::is_match`: the anchored
/// pattern `^\s*$` matches a string exactly when every character has the
/// Unicode `White_Space` property, which is the class [`is_space`] states.
#[verifier::external_body]
fn matches_whitespace_only(s: &str) -> (r: bool)
    ensures
        r == ws_only(s@),
{
    let re = regex::Regex::new(r"^\s*$").unwrap();
    re.is_match(s)
}

/// A child counts as a valid node unless it is a text node made only of
/// white space.
pub open spec fn spec_is_valid_node(n: NodeV) -> bool {
    !(n matches NodeV::Text(t) && ws_only(t))
}

pub open spec fn spec_count_valid(s: Seq<NodeV>) -> int
    decreases s,
{
    if s.len() == 0 {
        0
    } else {
        (if spec_is_valid_node(s[0]) {
            1int
        } else {
            0int
        }) + spec_count_valid(s.drop_first())
    }
}

pub proof fn lemma_count_valid_bounds(s: Seq<NodeV>)
    ensures
        0 <= spec_count_valid(s) <= s.len(),
    decreases s,
{
    if s.len() > 0 {
        lemma_count_valid_bounds(s.drop_first());
    }
}

proof fn lemma_count_valid_split(s: Seq<NodeV>, i: int)
    requires
        0 <= i < s.len(),
    ensures
        spec_count_valid(s.skip(i)) == (if spec_is_valid_node(s[i]) {
            1int
        } else {
            0int
        }) + spec_count_valid(s.skip(i + 1)),
{
    assert(s.skip(i)[0] == s[i]);
    assert(s.skip(i).drop_first() =~= s.skip(i + 1));
    assert(s.skip(i).len() > 0);
}

/// The number of children that the template keeps: everything except text
/// made only of white space.
pub fn get_valid_nodes(children: &Vec<RenderNode>) -> (r: usize)
    ensures
        r == spec_count_valid(nodes_view(children@)),
{
    proof {
        lemma_nodes_view(children@);
        lemma_count_valid_bounds(nodes_view(children@));
    }
    let ghost all = nodes_view(children@);
    let n = children.len();
    let mut count: usize = 0;
    let mut i: usize = 0;
    proof {
        assert(all.skip(0) =~= all);
    }
    while i < n
        invariant
            n == children@.len(),
            i <= n,
            count <= i,
            all == nodes_view(children@),
            all.len() == n,
            forall|j: int| 0 <= j < n ==> all[j] == node_view(children@[j]),
            spec_count_valid(all) == count + spec_count_valid(all.skip(i as int)),
            0 <= spec_count_valid(all.skip(i as int)) <= n - i,
        decreases n - i,
    {
        proof {
            lemma_count_valid_split(all, i as int);
            lemma_count_valid_bounds(all.skip(i as int + 1));
        }
        let keep = match &children[i] {
            RenderNode::Text(t) => !matches_whitespace_only(t.as_str()),
            _ => true,
        };
        proof {
            assert(keep == spec_is_valid_node(all[i as int]));
        }
        if keep {
            count = count + 1;
        }
        i = i + 1;
    }
    proof {
        assert(all.skip(n as int) =~= Seq::<NodeV>::empty());
    }
    count
}

} // verus!
