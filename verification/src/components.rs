//! Rewriting of the two recognized virtualization components: a `List`
//! element becomes a `scroll-view` wrapping one `list-builder`, and a
//! `ListItem` becomes a slotted `view`. Attributes are filtered through fixed
//! allowlists, renamed through an alias table, and completed with forced
//! defaults; everything else is dropped on purpose, since it has no meaning
//! on the lower-level target components.

use vstd::prelude::*;

use crate::chars::str_eq;
use crate::node::{
    Attr, AttrValue, AttrV, AttrValueV, Element, ElementName, ElementV, NameV, NodeV, RenderNode,
    attrs_view, attr_view, nodes_view, element_view, lemma_attrs_view,
};

verus! {

/// Views of a list of key strings.
pub open spec fn strs_view(ss: Seq<&str>) -> Seq<Seq<char>> {
    ss.map_values(|t: &str| t@)
}

/// Views of a list of key-rename pairs.
pub open spec fn pairs_view(ps: Seq<(&str, &str)>) -> Seq<(Seq<char>, Seq<char>)> {
    ps.map_values(|p: (&str, &str)| (p.0@, p.1@))
}

/// Whether the key stands in the list.
pub open spec fn seq_contains_str(ts: Seq<Seq<char>>, k: Seq<char>) -> bool {
    exists|i: int| 0 <= i < ts.len() && ts[i] == k
}

/// The key after renaming: the first alias entry that matches wins, and a key
/// with no entry keeps its name.
pub open spec fn spec_alias_key(alias: Seq<(Seq<char>, Seq<char>)>, k: Seq<char>) -> Seq<char>
    decreases alias,
{
    if alias.len() == 0 {
        k
    } else if alias[0].0 == k {
        alias[0].1
    } else {
        spec_alias_key(alias.drop_first(), k)
    }
}

/// The attributes kept by an allowlist, in their original relative order,
/// with the alias renames applied in place. A key in `exclude` is dropped
/// even when `targets` names it (the two allowlists of the list rewrite are
/// disjoint, so for them the exclusion never fires; it only records that one
/// attribute is never kept twice).
pub open spec fn spec_extract_props(
    s: Seq<AttrV>,
    targets: Seq<Seq<char>>,
    exclude: Seq<Seq<char>>,
    alias: Seq<(Seq<char>, Seq<char>)>,
) -> Seq<AttrV>
    decreases s,
{
    if s.len() == 0 {
        Seq::empty()
    } else {
        let rest = spec_extract_props(s.drop_first(), targets, exclude, alias);
        if seq_contains_str(targets, s[0].key) && !seq_contains_str(exclude, s[0].key) {
            seq![AttrV { key: spec_alias_key(alias, s[0].key), value: s[0].value }] + rest
        } else {
            rest
        }
    }
}

fn targets_contain(targets: &Vec<&str>, key: &str) -> (r: bool)
    ensures
        r == seq_contains_str(strs_view(targets@), key@),
{
    let n = targets.len();
    let mut i: usize = 0;
    while i < n
        invariant
            n == targets@.len(),
            i <= n,
            forall|j: int| 0 <= j < i ==> strs_view(targets@)[j] != key@,
        decreases n - i,
    {
        if str_eq(targets[i], key) {
            proof {
                assert(strs_view(targets@)[i as int] == key@);
            }
            return true;
        }
        i = i + 1;
    }
    false
}

fn apply_alias(alias: &Vec<(&str, &str)>, key: String) -> (r: String)
    ensures
        r@ == spec_alias_key(pairs_view(alias@), key@),
{
    let n = alias.len();
    let mut i: usize = 0;
    proof {
        assert(pairs_view(alias@).skip(0) =~= pairs_view(alias@));
    }
    while i < n
        invariant
            n == alias@.len(),
            i <= n,
            spec_alias_key(pairs_view(alias@), key@) == spec_alias_key(
                pairs_view(alias@).skip(i as int),
                key@,
            ),
        decreases n - i,
    {
        proof {
            assert(pairs_view(alias@).skip(i as int).drop_first() =~= pairs_view(alias@).skip(
                i as int + 1,
            ));
            assert(pairs_view(alias@).skip(i as int)[0] == (alias@[i as int].0@, alias@[i
                as int].1@));
        }
        if str_eq(alias[i].0, key.as_str()) {
            return alias[i].1.to_owned();
        }
        i = i + 1;
    }
    proof {
        assert(pairs_view(alias@).skip(n as int) =~= Seq::<(Seq<char>, Seq<char>)>::empty());
    }
    key
}

/// The allowlist of the outer `scroll-view`.
pub open spec fn scroll_view_targets() -> Seq<Seq<char>> {
    seq![
        "scrollX"@,
        "scrollY"@,
        "scrollTop"@,
        "upperThresholdCount"@,
        "lowerThresholdCount"@,
        "scrollIntoView"@,
        "enableBackToTop"@,
        "showScrollbar"@,
        "onScroll"@,
        "onScrollStart"@,
        "onScrollEnd"@,
        "onScrollToUpper"@,
        "onScrollToLower"@,
        "compileMode"@,
        "className"@,
        "cacheExtent"@,
        "style"@,
        "id"@,
        "key"@,
    ]
}

/// The two renames the `scroll-view` allowlist applies.
pub open spec fn scroll_view_alias() -> Seq<(Seq<char>, Seq<char>)> {
    seq![
        ("upperThresholdCount"@, "upperThreshold"@),
        ("lowerThresholdCount"@, "lowerThreshold"@),
    ]
}

/// The allowlist of the inner `list-builder`.
pub open spec fn list_builder_targets() -> Seq<Seq<char>> {
    seq![
        "padding"@,
        "type"@,
        "list"@,
        "childCount"@,
        "childHeight"@,
        "onItemBuild"@,
        "onItemDispose"@,
    ]
}

fn scroll_view_target_strs() -> (r: Vec<&'static str>)
    ensures
        strs_view(r@) == scroll_view_targets(),
{
    let r = vec![
        "scrollX",
        "scrollY",
        "scrollTop",
        "upperThresholdCount",
        "lowerThresholdCount",
        "scrollIntoView",
        "enableBackToTop",
        "showScrollbar",
        "onScroll",
        "onScrollStart",
        "onScrollEnd",
        "onScrollToUpper",
        "onScrollToLower",
        "compileMode",
        "className",
        "cacheExtent",
        "style",
        "id",
        "key",
    ];
    proof {
        assert(strs_view(r@) =~= scroll_view_targets());
    }
    r
}

fn scroll_view_alias_strs() -> (r: Vec<(&'static str, &'static str)>)
    ensures
        pairs_view(r@) == scroll_view_alias(),
{
    let r = vec![
        ("upperThresholdCount", "upperThreshold"),
        ("lowerThresholdCount", "lowerThreshold"),
    ];
    proof {
        assert(pairs_view(r@) =~= scroll_view_alias());
    }
    r
}

fn list_builder_target_strs() -> (r: Vec<&'static str>)
    ensures
        strs_view(r@) == list_builder_targets(),
{
    let r = vec![
        "padding",
        "type",
        "list",
        "childCount",
        "childHeight",
        "onItemBuild",
        "onItemDispose",
    ];
    proof {
        assert(strs_view(r@) =~= list_builder_targets());
    }
    r
}

/// The attributes of the outer `scroll-view`: the allowlisted originals with
/// the two threshold renames, then the forced `type="custom"`.
pub open spec fn spec_scroll_view_props(attrs: Seq<AttrV>) -> Seq<AttrV> {
    spec_extract_props(attrs, scroll_view_targets(), Seq::empty(), scroll_view_alias()) + seq![
        AttrV { key: "type"@, value: Some(AttrValueV::Lit("custom"@)) },
    ]
}

/// The attributes of the inner `list-builder`: the allowlisted originals
/// (none of which the outer allowlist names), then the forced
/// `className="list-builder"`.
pub open spec fn spec_list_builder_props(attrs: Seq<AttrV>) -> Seq<AttrV> {
    spec_extract_props(attrs, list_builder_targets(), scroll_view_targets(), Seq::empty()) + seq![
        AttrV { key: "className"@, value: Some(AttrValueV::Lit("list-builder"@)) },
    ]
}

/// What the `List` rewrite produces: a `scroll-view` with its allowlisted
/// attributes wrapping exactly one `list-builder` that carries the second
/// allowlist and the original children.
pub open spec fn spec_transform_list(e: ElementV) -> ElementV {
    ElementV {
        name: NameV::Tag("scroll-view"@),
        attrs: spec_scroll_view_props(e.attrs),
        children: seq![
            NodeV::Element(
                ElementV {
                    name: NameV::Tag("list-builder"@),
                    attrs: spec_list_builder_props(e.attrs),
                    children: e.children,
                    has_closing: true,
                },
            ),
        ],
        has_closing: true,
    }
}

/// Rewrites a `List` element in place into the canonical two-level
/// `scroll-view` / `list-builder` composition.
pub fn transform_list_component(el: &mut Element)
    ensures
        final(el)@ == spec_transform_list(old(el)@),
{
    let mut attrs: Vec<Attr> = Vec::new();
    let mut children: Vec<RenderNode> = Vec::new();
    core::mem::swap(&mut attrs, &mut el.attrs);
    core::mem::swap(&mut children, &mut el.children);
    let ghost attrs0 = attrs_view(attrs@);
    let (scroll_attrs, builder_attrs) = split_list_attrs(attrs);
    let mut scroll_attrs = scroll_attrs;
    let mut builder_attrs = builder_attrs;
    let ghost sb = scroll_attrs@;
    scroll_attrs.push(
        Attr { key: "type".to_owned(), value: Some(AttrValue::Lit("custom".to_owned())) },
    );
    proof {
        assert(scroll_attrs@ =~= sb + seq![scroll_attrs@[sb.len() as int]]);
        crate::node::lemma_attrs_view_add(sb, seq![scroll_attrs@[sb.len() as int]]);
        lemma_attrs_view(seq![scroll_attrs@[sb.len() as int]]);
        assert(attrs_view(seq![scroll_attrs@[sb.len() as int]]) =~= seq![
            AttrV { key: "type"@, value: Some(AttrValueV::Lit("custom"@)) },
        ]);
        assert(attrs_view(scroll_attrs@) =~= spec_scroll_view_props(attrs0));
    }
    let ghost bb = builder_attrs@;
    builder_attrs.push(
        Attr {
            key: "className".to_owned(),
            value: Some(AttrValue::Lit("list-builder".to_owned())),
        },
    );
    proof {
        assert(builder_attrs@ =~= bb + seq![builder_attrs@[bb.len() as int]]);
        crate::node::lemma_attrs_view_add(bb, seq![builder_attrs@[bb.len() as int]]);
        lemma_attrs_view(seq![builder_attrs@[bb.len() as int]]);
        assert(attrs_view(seq![builder_attrs@[bb.len() as int]]) =~= seq![
            AttrV { key: "className"@, value: Some(AttrValueV::Lit("list-builder"@)) },
        ]);
        assert(attrs_view(builder_attrs@) =~= spec_list_builder_props(attrs0));
    }
    let inner = Element {
        name: ElementName::Tag("list-builder".to_owned()),
        attrs: builder_attrs,
        children,
        has_closing: true,
    };
    let mut new_children: Vec<RenderNode> = Vec::new();
    new_children.push(RenderNode::Element(Box::new(inner)));
    let mut replacement = Element {
        name: ElementName::Tag("scroll-view".to_owned()),
        attrs: scroll_attrs,
        children: new_children,
        has_closing: true,
    };
    proof {
        assert(nodes_view(new_children@) =~= seq![NodeV::Element(element_view(inner))]);
        assert(element_view(replacement) == spec_transform_list(old(el)@));
    }
    core::mem::swap(el, &mut replacement);
}

fn split_list_attrs(attrs: Vec<Attr>) -> (r: (Vec<Attr>, Vec<Attr>))
    ensures
        attrs_view(r.0@) == spec_extract_props(
            attrs_view(attrs@),
            scroll_view_targets(),
            Seq::empty(),
            scroll_view_alias(),
        ),
        attrs_view(r.1@) == spec_extract_props(
            attrs_view(attrs@),
            list_builder_targets(),
            scroll_view_targets(),
            Seq::empty(),
        ),
{
    let ghost orig = attrs@;
    let mut attrs = attrs;
    let scroll_targets = scroll_view_target_strs();
    let builder_targets = list_builder_target_strs();
    let alias = scroll_view_alias_strs();
    let ghost t0 = scroll_view_targets();
    let ghost t1 = list_builder_targets();
    let ghost al = scroll_view_alias();
    let mut scroll_out: Vec<Attr> = Vec::new();
    let mut builder_out: Vec<Attr> = Vec::new();
    proof {
        lemma_attrs_view(orig);
        assert(attrs@ =~= orig.skip(0));
        assert(attrs_view(scroll_out@) =~= Seq::<AttrV>::empty());
        assert(attrs_view(builder_out@) =~= Seq::<AttrV>::empty());
    }
    let len_fits: usize = attrs.len();
    let ghost total = len_fits as int;
    proof {
        assert(total == orig.len());
    }
    let mut i: usize = 0;
    while attrs.len() > 0
        invariant
            attrs@ =~= orig.skip(i as int),
            0 <= i <= total,
            total == orig.len(),
            total <= usize::MAX,
            strs_view(scroll_targets@) == t0,
            strs_view(builder_targets@) == t1,
            pairs_view(alias@) == al,
            spec_extract_props(attrs_view(orig), t0, Seq::empty(), al) == attrs_view(scroll_out@)
                + spec_extract_props(attrs_view(attrs@), t0, Seq::empty(), al),
            spec_extract_props(attrs_view(orig), t1, t0, Seq::empty()) == attrs_view(builder_out@)
                + spec_extract_props(attrs_view(attrs@), t1, t0, Seq::empty()),
        decreases attrs@.len(),
    {
        let ghost before = attrs@;
        let a = attrs.remove(0);
        proof {
            assert(attrs@ =~= orig.skip(i as int + 1));
            lemma_attrs_view(before);
            lemma_attrs_view(attrs@);
            assert(attrs_view(before)[0] == attr_view(a));
            assert(attrs_view(before).drop_first() =~= attrs_view(attrs@));
        }
        let in_scroll = targets_contain(&scroll_targets, a.key.as_str());
        let in_builder = targets_contain(&builder_targets, a.key.as_str());
        if in_scroll {
            let ghost out_before = scroll_out@;
            let key2 = apply_alias(&alias, a.key);
            scroll_out.push(Attr { key: key2, value: a.value });
            proof {
                lemma_attrs_view(scroll_out@);
                lemma_attrs_view(out_before);
                assert(attrs_view(scroll_out@) =~= attrs_view(out_before) + seq![attr_view(
                    scroll_out@[out_before.len() as int])]);
            }
        } else if in_builder {
            let ghost out_before = builder_out@;
            builder_out.push(a);
            proof {
                lemma_attrs_view(builder_out@);
                lemma_attrs_view(out_before);
                assert(attrs_view(builder_out@) =~= attrs_view(out_before) + seq![attr_view(
                    builder_out@[out_before.len() as int])]);
            }
        }
        i = i + 1;
    }
    proof {
        assert(attrs_view(attrs@) =~= Seq::<AttrV>::empty());
        assert(attrs_view(scroll_out@) + Seq::<AttrV>::empty() =~= attrs_view(scroll_out@));
        assert(attrs_view(builder_out@) + Seq::<AttrV>::empty() =~= attrs_view(builder_out@));
    }
    (scroll_out, builder_out)
}


/// The first value paired with the key, if any.
pub open spec fn spec_map_lookup(m: Seq<(Seq<char>, Seq<char>)>, k: Seq<char>) -> Option<Seq<char>>
    decreases m,
{
    if m.len() == 0 {
        None
    } else if m[0].0 == k {
        Some(m[0].1)
    } else {
        spec_map_lookup(m.drop_first(), k)
    }
}

/// Views of a list of owned key-value pairs.
pub open spec fn str_pairs_view(ps: Seq<(String, String)>) -> Seq<(Seq<char>, Seq<char>)> {
    ps.map_values(|p: (String, String)| (p.0@, p.1@))
}

fn map_lookup(m: &Vec<(String, String)>, k: &str) -> (r: Option<String>)
    ensures
        match r {
            Some(v) => spec_map_lookup(str_pairs_view(m@), k@) == Some(v@),
            None => spec_map_lookup(str_pairs_view(m@), k@) is None,
        },
{
    let n = m.len();
    let mut i: usize = 0;
    proof {
        assert(str_pairs_view(m@).skip(0) =~= str_pairs_view(m@));
    }
    while i < n
        invariant
            n == m@.len(),
            i <= n,
            spec_map_lookup(str_pairs_view(m@), k@) == spec_map_lookup(
                str_pairs_view(m@).skip(i as int),
                k@,
            ),
        decreases n - i,
    {
        proof {
            assert(str_pairs_view(m@).skip(i as int).drop_first() =~= str_pairs_view(m@).skip(
                i as int + 1,
            ));
            assert(str_pairs_view(m@).skip(i as int)[0] == (m@[i as int].0@, m@[i as int].1@));
        }
        if str_eq(m[i].0.as_str(), k) {
            return Some(m[i].1.clone());
        }
        i = i + 1;
    }
    proof {
        assert(str_pairs_view(m@).skip(n as int) =~= Seq::<(Seq<char>, Seq<char>)>::empty());
    }
    None
}

/// What the `ListItem` rewrite produces: a `view` keeping every original
/// attribute, plus the `item` slot marker and the forced
/// `className="list-item"`, with children preserved.
pub open spec fn spec_transform_list_item(e: ElementV) -> ElementV {
    ElementV {
        name: NameV::Tag("view"@),
        attrs: e.attrs + seq![
            AttrV { key: "slot"@, value: Some(AttrValueV::Lit("item"@)) },
            AttrV { key: "className"@, value: Some(AttrValueV::Lit("list-item"@)) },
        ],
        children: e.children,
        has_closing: true,
    }
}

/// Rewrites a `ListItem` element in place into a slotted `view`.
pub fn transform_list_item_component(el: &mut Element)
    ensures
        final(el)@ == spec_transform_list_item(old(el)@),
{
    let ghost attrs0 = el.attrs@;
    el.attrs.push(Attr { key: "slot".to_owned(), value: Some(AttrValue::Lit("item".to_owned())) });
    el.attrs.push(
        Attr { key: "className".to_owned(), value: Some(AttrValue::Lit("list-item".to_owned())) },
    );
    el.name = ElementName::Tag("view".to_owned());
    el.has_closing = true;
    proof {
        let added = seq![el.attrs@[attrs0.len() as int], el.attrs@[attrs0.len() as int + 1]];
        assert(el.attrs@ =~= attrs0 + added);
        crate::node::lemma_attrs_view_add(attrs0, added);
        lemma_attrs_view(added);
        assert(attrs_view(added) =~= seq![
            AttrV { key: "slot"@, value: Some(AttrValueV::Lit("item"@)) },
            AttrV { key: "className"@, value: Some(AttrValueV::Lit("list-item"@)) },
        ]);
        assert(final(el)@.attrs =~= spec_transform_list_item(old(el)@).attrs);
    }
}

/// The module specifier of the host component library.
pub open spec fn spec_host_library() -> Seq<char> {
    "@tarojs/components"@
}

/// Whether the element's tag resolves, through the alias map and then the
/// specifier map, to the named export of the host component library.
pub open spec fn spec_resolves_to(
    name: NameV,
    aliases: Seq<(Seq<char>, Seq<char>)>,
    specifiers: Seq<(Seq<char>, Seq<char>)>,
    export: Seq<char>,
) -> bool {
    match name {
        NameV::Tag(s) => match spec_map_lookup(aliases, export) {
            Some(alias) => s == alias && (match spec_map_lookup(specifiers, alias) {
                Some(src) => src == spec_host_library(),
                None => false,
            }),
            None => false,
        },
        _ => false,
    }
}

fn element_resolves_to(
    el: &Element,
    import_aliases: &Vec<(String, String)>,
    import_specifiers: &Vec<(String, String)>,
    export: &str,
) -> (r: bool)
    ensures
        r == spec_resolves_to(
            el@.name,
            str_pairs_view(import_aliases@),
            str_pairs_view(import_specifiers@),
            export@,
        ),
{
    match &el.name {
        ElementName::Tag(s) => match map_lookup(import_aliases, export) {
            Some(alias) => {
                if str_eq(s.as_str(), alias.as_str()) {
                    match map_lookup(import_specifiers, alias.as_str()) {
                        Some(src) => str_eq(src.as_str(), "@tarojs/components"),
                        None => false,
                    }
                } else {
                    false
                }
            },
            None => false,
        },
        _ => {
            proof {
                assert(!(el@.name is Tag));
            }
            false
        },
    }
}

/// What [`transform_taro_components`] leaves in place: both recognitions are
/// decided against the element's original name, and a matched `List` rewrite
/// is applied before a matched `ListItem` rewrite.
pub open spec fn spec_transform_taro(
    e: ElementV,
    specifiers: Seq<(Seq<char>, Seq<char>)>,
    aliases: Seq<(Seq<char>, Seq<char>)>,
) -> ElementV {
    let e1 = if spec_resolves_to(e.name, aliases, specifiers, "List"@) {
        spec_transform_list(e)
    } else {
        e
    };
    if spec_resolves_to(e.name, aliases, specifiers, "ListItem"@) {
        spec_transform_list_item(e1)
    } else {
        e1
    }
}

/// Rewrites the element when its tag resolves to the host library's `List`
/// or `ListItem` export; same-named local components resolve to another
/// module specifier and are left untouched.
pub fn transform_taro_components(
    el: &mut Element,
    import_specifiers: &Vec<(String, String)>,
    import_aliases: &Vec<(String, String)>,
)
    ensures
        final(el)@ == spec_transform_taro(
            old(el)@,
            str_pairs_view(import_specifiers@),
            str_pairs_view(import_aliases@),
        ),
{
    proof {
        reveal_strlit("List");
        reveal_strlit("ListItem");
    }
    let is_list = element_resolves_to(el, import_aliases, import_specifiers, "List");
    let is_list_item = element_resolves_to(el, import_aliases, import_specifiers, "ListItem");
    if is_list {
        transform_list_component(el);
    }
    if is_list_item {
        transform_list_item_component(el);
    }
}


proof fn lemma_extract_props_keys(
    s: Seq<AttrV>,
    targets: Seq<Seq<char>>,
    exclude: Seq<Seq<char>>,
    alias: Seq<(Seq<char>, Seq<char>)>,
)
    ensures
        forall|i: int|
            0 <= i < spec_extract_props(s, targets, exclude, alias).len() ==> exists|kk: Seq<char>|
                seq_contains_str(targets, kk) && #[trigger] spec_extract_props(
                    s,
                    targets,
                    exclude,
                    alias,
                )[i].key == spec_alias_key(alias, kk),
    decreases s,
{
    if s.len() > 0 {
        lemma_extract_props_keys(s.drop_first(), targets, exclude, alias);
        let res = spec_extract_props(s, targets, exclude, alias);
        let rest = spec_extract_props(s.drop_first(), targets, exclude, alias);
        if seq_contains_str(targets, s[0].key) && !seq_contains_str(exclude, s[0].key) {
            assert forall|i: int| 0 <= i < res.len() implies exists|kk: Seq<char>|
                seq_contains_str(targets, kk) && #[trigger] res[i].key == spec_alias_key(
                alias,
                kk,
            ) by {
                if i == 0 {
                    assert(seq_contains_str(targets, s[0].key) && res[0].key == spec_alias_key(
                        alias,
                        s[0].key,
                    ));
                } else {
                    assert(res[i] == rest[i - 1]);
                }
            }
        } else {
            assert forall|i: int| 0 <= i < res.len() implies exists|kk: Seq<char>|
                seq_contains_str(targets, kk) && #[trigger] res[i].key == spec_alias_key(
                alias,
                kk,
            ) by {
                assert(res[i] == rest[i]);
            }
        }
    }
}

proof fn lemma_extract_props_member(
    s: Seq<AttrV>,
    targets: Seq<Seq<char>>,
    exclude: Seq<Seq<char>>,
    alias: Seq<(Seq<char>, Seq<char>)>,
    i: int,
)
    requires
        0 <= i < s.len(),
        seq_contains_str(targets, s[i].key),
        !seq_contains_str(exclude, s[i].key),
    ensures
        exists|j: int|
            0 <= j < spec_extract_props(s, targets, exclude, alias).len()
                && #[trigger] spec_extract_props(s, targets, exclude, alias)[j] == (AttrV {
                key: spec_alias_key(alias, s[i].key),
                value: s[i].value,
            }),
    decreases s,
{
    let res = spec_extract_props(s, targets, exclude, alias);
    let rest = spec_extract_props(s.drop_first(), targets, exclude, alias);
    let kept = seq_contains_str(targets, s[0].key) && !seq_contains_str(exclude, s[0].key);
    if i == 0 {
        assert(kept);
        assert(res[0] == (AttrV { key: spec_alias_key(alias, s[0].key), value: s[0].value }));
    } else {
        lemma_extract_props_member(s.drop_first(), targets, exclude, alias, i - 1);
        let j = choose|j: int|
            0 <= j < rest.len() && #[trigger] rest[j] == (AttrV {
                key: spec_alias_key(alias, s.drop_first()[i - 1].key),
                value: s.drop_first()[i - 1].value,
            });
        assert(s.drop_first()[i - 1] == s[i]);
        if kept {
            assert(res[j + 1] == rest[j]);
        } else {
            assert(res[j] == rest[j]);
        }
    }
}

/// Law: a rewritten `List` element is a `scroll-view` containing exactly one
/// child, a `list-builder` element that keeps the original children in order.
pub proof fn lemma_list_rewrite_shape(e: ElementV)
    ensures
        spec_transform_list(e).name == NameV::Tag("scroll-view"@),
        spec_transform_list(e).children.len() == 1,
        spec_transform_list(e).children[0] is Element,
        spec_transform_list(e).children[0]->Element_0.name == NameV::Tag("list-builder"@),
        spec_transform_list(e).children[0]->Element_0.children == e.children,
{
    let inner = ElementV {
        name: NameV::Tag("list-builder"@),
        attrs: spec_list_builder_props(e.attrs),
        children: e.children,
        has_closing: true,
    };
    assert(spec_transform_list(e).children == seq![NodeV::Element(inner)]);
    assert(spec_transform_list(e).children[0] == NodeV::Element(inner));
}

/// What the two alias entries can produce: a kept scroll-view key is either
/// untouched or one of the two threshold renames.
proof fn lemma_scroll_alias_range(kk: Seq<char>)
    ensures
        spec_alias_key(scroll_view_alias(), kk) == kk || spec_alias_key(scroll_view_alias(), kk)
            == "upperThreshold"@ || spec_alias_key(scroll_view_alias(), kk) == "lowerThreshold"@,
{
    let al = scroll_view_alias();
    let al1 = al.drop_first();
    let al2 = al1.drop_first();
    assert(al2.len() == 0);
    assert(spec_alias_key(al2, kk) == kk);
    assert(spec_alias_key(al1, kk) == (if al1[0].0 == kk {
        al1[0].1
    } else {
        spec_alias_key(al2, kk)
    }));
    assert(spec_alias_key(al, kk) == (if al[0].0 == kk {
        al[0].1
    } else {
        spec_alias_key(al1, kk)
    }));
}

/// Law: an attribute whose key stands in neither allowlist, and is none of
/// the keys the rewrite itself writes, is absent from both levels of the
/// rewritten `List`.
pub proof fn lemma_list_rewrite_drops(e: ElementV, k: Seq<char>)
    requires
        !seq_contains_str(scroll_view_targets(), k),
        !seq_contains_str(list_builder_targets(), k),
        k != "type"@,
        k != "className"@,
        k != "upperThreshold"@,
        k != "lowerThreshold"@,
    ensures
        forall|i: int|
            0 <= i < spec_transform_list(e).attrs.len() ==> #[trigger] spec_transform_list(
                e,
            ).attrs[i].key != k,
        forall|i: int|
            0 <= i < spec_transform_list(e).children[0]->Element_0.attrs.len()
                ==> #[trigger] spec_transform_list(e).children[0]->Element_0.attrs[i].key != k,
{
    let outer = spec_extract_props(e.attrs, scroll_view_targets(), Seq::empty(), scroll_view_alias());
    let inner = spec_extract_props(
        e.attrs,
        list_builder_targets(),
        scroll_view_targets(),
        Seq::empty(),
    );
    lemma_extract_props_keys(e.attrs, scroll_view_targets(), Seq::empty(), scroll_view_alias());
    lemma_extract_props_keys(
        e.attrs,
        list_builder_targets(),
        scroll_view_targets(),
        Seq::empty(),
    );
    assert forall|i: int| 0 <= i < spec_transform_list(e).attrs.len() implies #[trigger]
    spec_transform_list(e).attrs[i].key != k by {
        if i < outer.len() {
            assert(spec_transform_list(e).attrs[i] == outer[i]);
            let kk = choose|kk: Seq<char>|
                seq_contains_str(scroll_view_targets(), kk) && #[trigger] outer[i].key
                    == spec_alias_key(scroll_view_alias(), kk);
            lemma_scroll_alias_range(kk);
        } else {
            assert(spec_transform_list(e).attrs[i].key == "type"@);
        }
    }
    assert forall|i: int|
        0 <= i < spec_transform_list(e).children[0]->Element_0.attrs.len() implies #[trigger]
    spec_transform_list(e).children[0]->Element_0.attrs[i].key != k by {
        if i < inner.len() {
            assert(spec_transform_list(e).children[0]->Element_0.attrs[i] == inner[i]);
            let kk = choose|kk: Seq<char>|
                seq_contains_str(list_builder_targets(), kk) && #[trigger] inner[i].key
                    == spec_alias_key(Seq::<(Seq<char>, Seq<char>)>::empty(), kk);
        } else {
            assert(spec_transform_list(e).children[0]->Element_0.attrs[i].key == "className"@);
        }
    }
}

/// Law: an `upperThresholdCount` attribute of the source element survives the
/// `List` rewrite on the `scroll-view`, renamed to `upperThreshold`, with its
/// value unchanged.
pub proof fn lemma_list_rewrite_renames_upper_threshold(e: ElementV, i: int)
    requires
        0 <= i < e.attrs.len(),
        e.attrs[i].key == "upperThresholdCount"@,
    ensures
        exists|j: int|
            0 <= j < spec_transform_list(e).attrs.len() && #[trigger] spec_transform_list(
                e,
            ).attrs[j] == (AttrV { key: "upperThreshold"@, value: e.attrs[i].value }),
{
    assert(seq_contains_str(scroll_view_targets(), e.attrs[i].key)) by {
        assert(scroll_view_targets()[3] == "upperThresholdCount"@);
    }
    lemma_extract_props_member(
        e.attrs,
        scroll_view_targets(),
        Seq::empty(),
        scroll_view_alias(),
        i,
    );
    let outer = spec_extract_props(e.attrs, scroll_view_targets(), Seq::empty(), scroll_view_alias());
    let j = choose|j: int|
        0 <= j < outer.len() && #[trigger] outer[j] == (AttrV {
            key: spec_alias_key(scroll_view_alias(), e.attrs[i].key),
            value: e.attrs[i].value,
        });
    assert(spec_alias_key(scroll_view_alias(), e.attrs[i].key) == "upperThreshold"@);
    assert(spec_transform_list(e).attrs[j] == outer[j]);
}

} // verus!
