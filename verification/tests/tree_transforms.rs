use compile_mode::components::{
    transform_list_component, transform_list_item_component, transform_taro_components,
};
use compile_mode::context::{
    create_jsx_dynamic_id, create_normal_text_template, create_original_node_renderer,
    create_original_node_renderer_foreach, get_harmony_component_style,
    get_harmony_replace_component_dependency_define, is_inner_component, ComponentReplace,
    PluginConfig, TransformContext,
};
use compile_mode::attrs::Adapter;
use compile_mode::loops::{
    check_jsx_element_child_is_loop, check_jsx_element_children_exist_loop, extract_jsx_loop,
    is_call_expr_of_loop, is_render_fn,
};
use compile_mode::naming::named_iter;
use compile_mode::node::{
    check_jsx_element_has_compile_ignore, create_jsx_bool_attr, create_jsx_lit_attr,
    get_valid_nodes, is_static_jsx, is_static_jsx_element_child, ArrowBody, Attr, AttrValue,
    Element, ElementName, Expr, MemberProp, RenderNode,
};
use compile_mode::xscript::{as_xscript_expr_string, is_xscript};

fn element(tag: &str, attrs: Vec<Attr>, children: Vec<RenderNode>) -> Element {
    Element {
        name: ElementName::Tag(String::from(tag)),
        attrs,
        children,
        has_closing: true,
    }
}

fn tag_of(el: &Element) -> &str {
    match &el.name {
        ElementName::Tag(s) => s.as_str(),
        ElementName::Dynamic(_) => panic!("expected a static tag"),
    }
}

fn lit_of(a: &Attr) -> Option<&str> {
    match &a.value {
        Some(AttrValue::Lit(s)) => Some(s.as_str()),
        _ => None,
    }
}

fn keys_of(el: &Element) -> Vec<&str> {
    el.attrs.iter().map(|a| a.key.as_str()).collect()
}

fn map_call(callback: Expr) -> (Expr, Vec<Expr>) {
    let callee = Expr::Member(
        Box::new(Expr::Ident(String::from("list"))),
        MemberProp::Ident(String::from("map")),
    );
    (callee, vec![callback])
}

#[test]
fn map_with_arrow_is_a_loop_call() {
    let (callee, args) = map_call(Expr::Arrow(ArrowBody::Expr(Box::new(Expr::Other))));
    assert!(is_call_expr_of_loop(&callee, &args));
}

#[test]
fn other_calls_are_no_loop_call() {
    let callee = Expr::Member(
        Box::new(Expr::Ident(String::from("list"))),
        MemberProp::Ident(String::from("forEach")),
    );
    assert!(!is_call_expr_of_loop(&callee, &vec![Expr::Arrow(ArrowBody::Expr(Box::new(Expr::Other)))]));
    let (callee2, _) = map_call(Expr::Other);
    assert!(!is_call_expr_of_loop(&callee2, &vec![Expr::Other]));
    assert!(!is_call_expr_of_loop(&callee2, &vec![]));
}

#[test]
fn render_prefixed_callees_are_render_fns() {
    assert!(is_render_fn(&Expr::Ident(String::from("renderList"))));
    assert!(is_render_fn(&Expr::Member(
        Box::new(Expr::Ident(String::from("self"))),
        MemberProp::Ident(String::from("renderItem")),
    )));
    assert!(!is_render_fn(&Expr::Ident(String::from("draw"))));
}

#[test]
fn loop_rewrite_adds_exactly_the_two_marker_attrs_to_an_element() {
    let row = element(
        "row",
        vec![create_jsx_lit_attr("id", String::from("x"))],
        vec![RenderNode::Text(String::from("hi"))],
    );
    let callback = Expr::Arrow(ArrowBody::Expr(Box::new(Expr::Paren(Box::new(
        Expr::Element(Box::new(row)),
    )))));
    let (callee, mut args) = map_call(callback);
    assert!(extract_jsx_loop(&callee, &mut args));
    match &args[0] {
        Expr::Arrow(ArrowBody::Expr(body)) => match &**body {
            Expr::Element(el) => {
                assert_eq!(tag_of(el), "row");
                assert_eq!(keys_of(el), vec!["id", "for", "for-key"]);
                assert_eq!(el.attrs[1].value.is_none(), true);
                assert_eq!(lit_of(&el.attrs[2]), Some("sid"));
                assert_eq!(el.children.len(), 1);
            }
            _ => panic!("expected the rewritten element"),
        },
        _ => panic!("expected the arrow callback"),
    }
}

#[test]
fn loop_rewrite_promotes_a_fragment_to_a_block_element() {
    let fragment = Expr::Fragment(vec![
        RenderNode::Text(String::from("a")),
        RenderNode::Text(String::from("b")),
    ]);
    let callback = Expr::Func(Some(vec![
        compile_mode::node::Stmt::Other,
        compile_mode::node::Stmt::Return(Some(Box::new(fragment))),
    ]));
    let (callee, mut args) = map_call(callback);
    assert!(extract_jsx_loop(&callee, &mut args));
    match &args[0] {
        Expr::Func(Some(stmts)) => match stmts.last() {
            Some(compile_mode::node::Stmt::Return(Some(rv))) => match &**rv {
                Expr::Element(el) => {
                    assert_eq!(tag_of(el), "block");
                    assert_eq!(keys_of(el), vec!["for", "for-key"]);
                    assert_eq!(lit_of(&el.attrs[1]), Some("sid"));
                    match (&el.children[0], &el.children[1]) {
                        (RenderNode::Text(a), RenderNode::Text(b)) => {
                            assert_eq!(a, "a");
                            assert_eq!(b, "b");
                        }
                        _ => panic!("children were not preserved"),
                    }
                }
                _ => panic!("expected the block element"),
            },
            _ => panic!("expected the final return"),
        },
        _ => panic!("expected the function callback"),
    }
}

#[test]
fn loop_rewrite_leaves_non_markup_returns_alone() {
    let (callee, mut args) = map_call(Expr::Arrow(ArrowBody::Expr(Box::new(Expr::Other))));
    assert!(!extract_jsx_loop(&callee, &mut args));
    match &args[0] {
        Expr::Arrow(ArrowBody::Expr(body)) => match **body {
            Expr::Other => {}
            _ => panic!("the callback body changed"),
        },
        _ => panic!("the callback changed shape"),
    }
}

#[test]
fn loop_containers_are_recognized_among_children() {
    let (callee, args) = map_call(Expr::Arrow(ArrowBody::Expr(Box::new(Expr::Other))));
    let child = RenderNode::ExprContainer(Box::new(Expr::Call(Box::new(callee), args)));
    assert!(check_jsx_element_child_is_loop(&child));
    let el = element("view", vec![], vec![RenderNode::Text(String::from("x")), child]);
    assert!(check_jsx_element_children_exist_loop(&el));
    let quiet = element("view", vec![], vec![RenderNode::Text(String::from("x"))]);
    assert!(!check_jsx_element_children_exist_loop(&quiet));
}

fn taro_maps() -> (Vec<(String, String)>, Vec<(String, String)>) {
    let specifiers = vec![
        (String::from("L"), String::from("@tarojs/components")),
        (String::from("LI"), String::from("@tarojs/components")),
    ];
    let aliases = vec![
        (String::from("List"), String::from("L")),
        (String::from("ListItem"), String::from("LI")),
    ];
    (specifiers, aliases)
}

#[test]
fn list_becomes_scroll_view_wrapping_one_list_builder() {
    let (specifiers, aliases) = taro_maps();
    let mut el = element(
        "L",
        vec![
            create_jsx_lit_attr("upperThresholdCount", String::from("3")),
            create_jsx_lit_attr("flavor", String::from("x")),
            create_jsx_lit_attr("padding", String::from("2")),
        ],
        vec![RenderNode::Text(String::from("row"))],
    );
    transform_taro_components(&mut el, &specifiers, &aliases);
    assert_eq!(tag_of(&el), "scroll-view");
    assert_eq!(keys_of(&el), vec!["upperThreshold", "type"]);
    assert_eq!(lit_of(&el.attrs[0]), Some("3"));
    assert_eq!(lit_of(&el.attrs[1]), Some("custom"));
    assert_eq!(el.children.len(), 1);
    match &el.children[0] {
        RenderNode::Element(inner) => {
            assert_eq!(tag_of(inner), "list-builder");
            assert_eq!(keys_of(inner), vec!["padding", "className"]);
            assert_eq!(lit_of(&inner.attrs[1]), Some("list-builder"));
            match &inner.children[0] {
                RenderNode::Text(t) => assert_eq!(t, "row"),
                _ => panic!("children were not preserved"),
            }
        }
        _ => panic!("expected the list-builder child"),
    }
}

#[test]
fn list_item_becomes_a_slotted_view() {
    let mut el = element(
        "LI",
        vec![create_jsx_lit_attr("id", String::from("a"))],
        vec![RenderNode::Text(String::from("x"))],
    );
    transform_list_item_component(&mut el);
    assert_eq!(tag_of(&el), "view");
    assert_eq!(keys_of(&el), vec!["id", "slot", "className"]);
    assert_eq!(lit_of(&el.attrs[1]), Some("item"));
    assert_eq!(lit_of(&el.attrs[2]), Some("list-item"));
}

#[test]
fn same_named_components_from_other_modules_stay_untouched() {
    let specifiers = vec![(String::from("L"), String::from("./my-list"))];
    let aliases = vec![(String::from("List"), String::from("L"))];
    let mut el = element("L", vec![], vec![]);
    transform_taro_components(&mut el, &specifiers, &aliases);
    assert_eq!(tag_of(&el), "L");
}

#[test]
fn direct_list_transform_keeps_children_and_forces_type_custom() {
    let mut el = element("whatever", vec![], vec![RenderNode::Text(String::from("k"))]);
    transform_list_component(&mut el);
    assert_eq!(tag_of(&el), "scroll-view");
    assert_eq!(keys_of(&el), vec!["type"]);
    match &el.children[0] {
        RenderNode::Element(inner) => {
            assert_eq!(keys_of(inner), vec!["className"]);
            assert_eq!(inner.children.len(), 1);
        }
        _ => panic!("expected the list-builder child"),
    }
}

#[test]
fn static_elements_have_no_attrs_and_only_text_children() {
    let plain = element("view", vec![], vec![RenderNode::Text(String::from("t"))]);
    assert!(is_static_jsx(&plain));
    let with_attr = element(
        "view",
        vec![create_jsx_bool_attr("x")],
        vec![RenderNode::Text(String::from("t"))],
    );
    assert!(!is_static_jsx(&with_attr));
    let with_child = element("view", vec![], vec![RenderNode::Fragment(vec![])]);
    assert!(!is_static_jsx(&with_child));
}

#[test]
fn container_descendants_flag_the_subtree_dynamic() {
    let deep = RenderNode::Element(Box::new(element(
        "view",
        vec![],
        vec![RenderNode::Fragment(vec![RenderNode::ExprContainer(
            Box::new(Expr::Other),
        )])],
    )));
    assert!(!is_static_jsx_element_child(&deep));
    let quiet = RenderNode::Element(Box::new(element(
        "view",
        vec![create_jsx_bool_attr("x")],
        vec![RenderNode::Text(String::from("t"))],
    )));
    // The two classifier checks are independent: attributes make the element
    // non-static while its subtree still holds no expression container.
    match &quiet {
        RenderNode::Element(el) => assert!(!is_static_jsx(el)),
        _ => unreachable!(),
    }
    assert!(is_static_jsx_element_child(&quiet));
}

#[test]
fn whitespace_only_text_children_do_not_count_as_valid_nodes() {
    let children = vec![
        RenderNode::Text(String::from("   \n\t  ")),
        RenderNode::Text(String::from(" a ")),
        RenderNode::Element(Box::new(element("view", vec![], vec![]))),
    ];
    assert_eq!(get_valid_nodes(&children), 2);
    assert_eq!(get_valid_nodes(&vec![]), 0);
}

#[test]
fn the_ignore_marker_is_found_among_attributes() {
    let marked = element("view", vec![create_jsx_bool_attr("ignore")], vec![]);
    assert!(check_jsx_element_has_compile_ignore(&marked));
    let plain = element("view", vec![create_jsx_bool_attr("id")], vec![]);
    assert!(!check_jsx_element_has_compile_ignore(&plain));
}

fn fresh_context() -> TransformContext {
    TransformContext {
        namer: named_iter(String::from("n")),
        node_name_vec: Vec::new(),
        component_set: Vec::new(),
        config: PluginConfig {
            components: vec![String::from("view"), String::from("text")],
            component_replace: vec![(
                String::from("text"),
                ComponentReplace {
                    dependency_define: String::from("import { Text } from './text'"),
                },
            )],
            component_styles: vec![
                (String::from("text"), String::from("@Styles text_style()")),
                (String::from("view"), String::from("@Styles view_style()")),
            ],
            adapter: Adapter {
                if_attr: None,
                else_attr: None,
                for_attr: None,
                for_key_attr: None,
            },
        },
    }
}

#[test]
fn dynamic_ids_are_minted_recorded_and_stamped() {
    let mut ctx = fresh_context();
    let mut el = element("view", vec![], vec![]);
    let first = create_jsx_dynamic_id(&mut el, &mut ctx);
    assert_eq!(first, "n0");
    let mut el2 = element("view", vec![], vec![]);
    let second = create_jsx_dynamic_id(&mut el2, &mut ctx);
    assert_eq!(second, "n1");
    assert_eq!(ctx.node_name_vec, vec![String::from("n0"), String::from("n1")]);
    assert_eq!(keys_of(&el), vec!["dynamicId"]);
    assert_eq!(lit_of(&el.attrs[0]), Some("n0"));
}

#[test]
fn inner_components_are_matched_by_kebab_case_tag() {
    let ctx = fresh_context();
    let el = element("View", vec![], vec![]);
    assert!(is_inner_component(&el, &ctx.config));
    let other = element("Swiper", vec![], vec![]);
    assert!(!is_inner_component(&other, &ctx.config));
}

#[test]
fn dependency_defines_cover_only_used_replaced_components() {
    let mut ctx = fresh_context();
    assert_eq!(get_harmony_replace_component_dependency_define(&ctx), "");
    ctx.record_component("text");
    ctx.record_component("text");
    assert_eq!(ctx.component_set.len(), 1);
    assert_eq!(
        get_harmony_replace_component_dependency_define(&ctx),
        "import { Text } from './text'\n"
    );
}

#[test]
fn component_styles_skip_replaced_components() {
    let mut ctx = fresh_context();
    ctx.record_component("text");
    ctx.record_component("view");
    // The text component is replaced, so only the view style is emitted.
    assert_eq!(get_harmony_component_style(&ctx), "@Styles view_style()");
}

#[test]
fn renderers_wrap_the_node_name_and_indent() {
    assert_eq!(
        create_original_node_renderer_foreach("n0"),
        "  createLazyChildren(n0)\n"
    );
    assert_eq!(
        create_original_node_renderer("n0"),
        "  createChildItem(n0 as TaroElement, createLazyChildren)\n"
    );
}

#[test]
fn text_templates_bind_the_item_or_the_node_name() {
    let mut ctx = fresh_context();
    let with_name = create_normal_text_template(&mut ctx, "n0", false, "Text(", ")");
    assert_eq!(with_name, "  Text(n0)\n");
    let with_item = create_normal_text_template(&mut ctx, "n0", true, "Text(", ")");
    assert_eq!(with_item, "  Text(item)\n");
    assert!(ctx.component_set.contains(&String::from("text")));
}

#[test]
fn xscript_paths_resolve_against_known_aliases() {
    assert!(is_xscript("xs"));
    assert!(!is_xscript("view"));
    let names = vec![String::from("utils")];
    let simple = Expr::Member(
        Box::new(Expr::Ident(String::from("utils"))),
        MemberProp::Ident(String::from("format")),
    );
    assert_eq!(
        as_xscript_expr_string(&simple, &names),
        Some(String::from("utils.format"))
    );
    let nested = Expr::Member(Box::new(simple), MemberProp::Ident(String::from("cached")));
    assert_eq!(
        as_xscript_expr_string(&nested, &names),
        Some(String::from("utils.format.cached"))
    );
    let unknown = Expr::Member(
        Box::new(Expr::Ident(String::from("helpers"))),
        MemberProp::Ident(String::from("format")),
    );
    assert_eq!(as_xscript_expr_string(&unknown, &names), None);
    let no_ident_prop = Expr::Member(Box::new(Expr::Ident(String::from("utils"))), MemberProp::Other);
    assert_eq!(as_xscript_expr_string(&no_ident_prop, &names), None);
}

#[test]
fn attribute_and_element_constructors_build_the_expected_shapes() {
    let b = compile_mode::node::create_jsx_bool_attr("for");
    assert_eq!(b.key, "for");
    assert!(b.value.is_none());
    let l = create_jsx_lit_attr("for-key", String::from("sid"));
    assert_eq!(lit_of(&l), Some("sid"));
    let e = compile_mode::node::create_jsx_expr_attr("bindtap", Box::new(Expr::Ident(String::from("h"))));
    match &e.value {
        Some(AttrValue::Expr(inner)) => match &**inner {
            Expr::Ident(n) => assert_eq!(n, "h"),
            _ => panic!("expected the expression value"),
        },
        _ => panic!("expected an expression attribute"),
    }
    let se = compile_mode::node::create_self_closing_jsx_element_expr(
        ElementName::Tag(String::from("view")),
        Some(vec![create_jsx_bool_attr("x")]),
    );
    match se {
        Expr::Element(el) => {
            assert_eq!(tag_of(&el), "view");
            assert_eq!(keys_of(&el), vec!["x"]);
            assert!(el.children.is_empty());
            assert!(!el.has_closing);
        }
        _ => panic!("expected an element expression"),
    }
}
