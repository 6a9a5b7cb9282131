//! The per-compile-unit transform context: configuration, the naming
//! service's state, the registry of assigned dynamic-node names, the set of
//! built-in components used, and the emitters that consult them.

use vstd::prelude::*;

use crate::attrs::{Adapter, to_kebab_case, spec_to_kebab_case};
use crate::chars::str_eq;
use crate::components::seq_contains_str;
use crate::naming::{NodeNamer, spec_node_name};
use crate::node::{
    Attr, AttrValue, AttrV, AttrValueV, Element, ElementName, NameV, attrs_view,
    lemma_attrs_view, lemma_attrs_view_add,
};
use crate::text::{add_spaces_to_lines, spec_add_spaces};

verus! {

/// Views of a list of owned strings.
pub open spec fn strings_view(ss: Seq<String>) -> Seq<Seq<char>> {
    ss.map_values(|s: String| s@)
}

/// What a replaced built-in component needs at import time.
pub struct ComponentReplace {
    pub dependency_define: String,
}

/// The user-supplied configuration, read-only during one compile unit: the
/// declared built-in component tags, the replacement table with its
/// dependency-declaration snippets, the style snippets per tag, and the
/// control-flow adapter.
pub struct PluginConfig {
    pub components: Vec<String>,
    pub component_replace: Vec<(String, ComponentReplace)>,
    pub component_styles: Vec<(String, String)>,
    pub adapter: Adapter,
}

/// The mutable state of one compile unit.
pub struct TransformContext {
    pub namer: NodeNamer,
    pub node_name_vec: Vec<String>,
    pub component_set: Vec<String>,
    pub config: PluginConfig,
}

/// The component set is a set: no tag stands in it twice.
pub open spec fn spec_set_wf(set: Seq<Seq<char>>) -> bool {
    forall|i: int, j: int| 0 <= i < j < set.len() ==> set[i] != set[j]
}

/// Inserting into the component set: already-present tags change nothing.
pub open spec fn spec_set_insert(set: Seq<Seq<char>>, t: Seq<char>) -> Seq<Seq<char>> {
    if seq_contains_str(set, t) {
        set
    } else {
        set.push(t)
    }
}

/// Law: recording a used component keeps the component set free of
/// duplicates, and the recorded tag is in it afterwards.
pub proof fn lemma_set_insert_keeps_wf(set: Seq<Seq<char>>, t: Seq<char>)
    requires
        spec_set_wf(set),
    ensures
        spec_set_wf(spec_set_insert(set, t)),
        seq_contains_str(spec_set_insert(set, t), t),
{
    if !seq_contains_str(set, t) {
        let s2 = set.push(t);
        assert(s2[set.len() as int] == t);
        assert forall|i: int, j: int| 0 <= i < j < s2.len() implies s2[i] != s2[j] by {
            if j < set.len() {
                assert(s2[i] == set[i] && s2[j] == set[j]);
            } else {
                assert(s2[i] == set[i] && s2[j] == t);
            }
        }
    } else {
        assert(seq_contains_str(spec_set_insert(set, t), t));
    }
}

impl TransformContext {
    /// Records that a built-in component tag is used in this compile unit.
    pub fn record_component(&mut self, tag: &str)
        ensures
            strings_view(final(self).component_set@) == spec_set_insert(
                strings_view(old(self).component_set@),
                tag@,
            ),
            final(self).namer == old(self).namer,
            final(self).node_name_vec == old(self).node_name_vec,
            final(self).config == old(self).config,
    {
        let ghost set0 = strings_view(self.component_set@);
        let n = self.component_set.len();
        let mut i: usize = 0;
        while i < n
            invariant
                n == self.component_set@.len(),
                i <= n,
                forall|j: int| 0 <= j < i ==> strings_view(self.component_set@)[j] != tag@,
                *self == *old(self),
                set0 == strings_view(self.component_set@),
            decreases n - i,
        {
            if str_eq(self.component_set[i].as_str(), tag) {
                proof {
                    assert(strings_view(self.component_set@)[i as int] == tag@);
                }
                return ;
            }
            i = i + 1;
        }
        self.component_set.push(tag.to_owned());
        proof {
            assert(strings_view(self.component_set@) =~= set0.push(tag@));
        }
    }
}

/// The attribute key that carries a dynamic node's assigned name.
pub open spec fn spec_dynamic_id_key() -> Seq<char> {
    "dynamicId"@
}

/// Runtime form of [`spec_dynamic_id_key`].
pub fn dynamic_id_key() -> (r: &'static str)
    ensures
        r@ == spec_dynamic_id_key(),
{
    "dynamicId"
}

/// Mints the next dynamic-node name, records it in the registry, and stamps
/// it onto the element as a literal attribute.
pub fn create_jsx_dynamic_id(el: &mut Element, ctx: &mut TransformContext) -> (r: String)
    requires
        old(ctx).namer.count < u64::MAX,
    ensures
        r@ == spec_node_name(old(ctx).namer.prefix@, old(ctx).namer.count as nat),
        final(ctx).namer.prefix == old(ctx).namer.prefix,
        final(ctx).namer.count == old(ctx).namer.count + 1,
        strings_view(final(ctx).node_name_vec@) == strings_view(old(ctx).node_name_vec@).push(r@),
        final(ctx).component_set == old(ctx).component_set,
        final(ctx).config == old(ctx).config,
        final(el).name == old(el).name,
        final(el).children == old(el).children,
        final(el).has_closing == old(el).has_closing,
        attrs_view(final(el).attrs@) == attrs_view(old(el).attrs@).push(
            AttrV { key: spec_dynamic_id_key(), value: Some(AttrValueV::Lit(r@)) },
        ),
{
    let node_name = ctx.namer.next();
    ctx.node_name_vec.push(node_name.clone());
    let ghost attrs0 = el.attrs@;
    el.attrs.push(
        Attr { key: dynamic_id_key().to_owned(), value: Some(AttrValue::Lit(node_name.clone())) },
    );
    proof {
        assert(strings_view(ctx.node_name_vec@) =~= strings_view(old(ctx).node_name_vec@).push(
            node_name@,
        ));
        let added = seq![el.attrs@[attrs0.len() as int]];
        assert(el.attrs@ =~= attrs0 + added);
        lemma_attrs_view_add(attrs0, added);
        lemma_attrs_view(added);
        assert(attrs_view(el.attrs@) =~= attrs_view(attrs0).push(
            AttrV { key: spec_dynamic_id_key(), value: Some(AttrValueV::Lit(node_name@)) },
        ));
    }
    node_name
}

/// Whether the element's tag, in kebab-case, is a declared built-in
/// component.
pub open spec fn spec_is_inner_component(name: NameV, components: Seq<Seq<char>>) -> bool {
    match name {
        NameV::Tag(s) => seq_contains_str(components, spec_to_kebab_case(s)),
        _ => false,
    }
}

/// Whether the element names a declared built-in component.
pub fn is_inner_component(el: &Element, config: &PluginConfig) -> (r: bool)
    ensures
        r == spec_is_inner_component(el@.name, strings_view(config.components@)),
{
    match &el.name {
        ElementName::Tag(sym) => {
            proof {
                assert(el@.name == NameV::Tag(sym@));
            }
            let name = to_kebab_case(sym.as_str());
            let n = config.components.len();
            let mut i: usize = 0;
            while i < n
                invariant
                    n == config.components@.len(),
                    i <= n,
                    name@ == spec_to_kebab_case(sym@),
                    el@.name == NameV::Tag(sym@),
                    forall|j: int|
                        0 <= j < i ==> strings_view(config.components@)[j] != name@,
                decreases n - i,
            {
                if str_eq(config.components[i].as_str(), name.as_str()) {
                    proof {
                        assert(strings_view(config.components@)[i as int] == name@);
                    }
                    return true;
                }
                i = i + 1;
            }
            proof {
                assert(strings_view(config.components@).len() == n);
                assert(!seq_contains_str(strings_view(config.components@), name@));
            }
            false
        },
        _ => {
            proof {
                assert(!(el@.name is Tag));
            }
            false
        },
    }
}

/// Views of the replacement table: tag and dependency-declaration snippet.
pub open spec fn replace_view(s: Seq<(String, ComponentReplace)>) -> Seq<(Seq<char>, Seq<char>)> {
    s.map_values(|p: (String, ComponentReplace)| (p.0@, p.1.dependency_define@))
}

/// Views of the style table: tag and style snippet.
pub open spec fn styles_view(s: Seq<(String, String)>) -> Seq<(Seq<char>, Seq<char>)> {
    s.map_values(|p: (String, String)| (p.0@, p.1@))
}

/// The keys of a tag-keyed table.
pub open spec fn table_keys(s: Seq<(Seq<char>, Seq<char>)>) -> Seq<Seq<char>> {
    s.map_values(|p: (Seq<char>, Seq<char>)| p.0)
}

/// The dependency-declaration snippets of the replaced components that this
/// compile unit used, in table order, each closed with a line feed.
pub open spec fn spec_dependency_defines(
    entries: Seq<(Seq<char>, Seq<char>)>,
    used: Seq<Seq<char>>,
) -> Seq<char>
    decreases entries,
{
    if entries.len() == 0 {
        Seq::empty()
    } else {
        (if seq_contains_str(used, entries[0].0) {
            entries[0].1 + seq!['\n']
        } else {
            Seq::empty()
        }) + spec_dependency_defines(entries.drop_first(), used)
    }
}

fn set_contains(set: &Vec<String>, key: &str) -> (r: bool)
    ensures
        r == seq_contains_str(strings_view(set@), key@),
{
    let n = set.len();
    let mut i: usize = 0;
    while i < n
        invariant
            n == set@.len(),
            i <= n,
            forall|j: int| 0 <= j < i ==> strings_view(set@)[j] != key@,
        decreases n - i,
    {
        if str_eq(set[i].as_str(), key) {
            proof {
                assert(strings_view(set@)[i as int] == key@);
            }
            return true;
        }
        i = i + 1;
    }
    false
}

/// Concatenates the dependency declarations of every replaced component that
/// the compile unit used.
pub fn get_harmony_replace_component_dependency_define(ctx: &TransformContext) -> (r: String)
    ensures
        r@ == spec_dependency_defines(
            replace_view(ctx.config.component_replace@),
            strings_view(ctx.component_set@),
        ),
{
    let ghost entries = replace_view(ctx.config.component_replace@);
    let ghost used = strings_view(ctx.component_set@);
    let n = ctx.config.component_replace.len();
    let mut out = String::new();
    let mut i: usize = 0;
    proof {
        assert(entries.skip(0) =~= entries);
    }
    while i < n
        invariant
            n == ctx.config.component_replace@.len(),
            i <= n,
            entries == replace_view(ctx.config.component_replace@),
            used == strings_view(ctx.component_set@),
            entries.len() == n,
            spec_dependency_defines(entries, used) == out@ + spec_dependency_defines(
                entries.skip(i as int),
                used,
            ),
        decreases n - i,
    {
        proof {
            assert(entries.skip(i as int)[0] == (ctx.config.component_replace@[i as int].0@,
            ctx.config.component_replace@[i as int].1.dependency_define@));
            assert(entries.skip(i as int).drop_first() =~= entries.skip(i as int + 1));
        }
        let ghost out0 = out@;
        if set_contains(&ctx.component_set, ctx.config.component_replace[i].0.as_str()) {
            out.append(ctx.config.component_replace[i].1.dependency_define.as_str());
            out.append("\n");
            proof {
                reveal_strlit("\n");
                assert(out@ =~= out0 + (entries.skip(i as int)[0].1 + seq!['\n']));
            }
        }
        i = i + 1;
    }
    proof {
        assert(entries.skip(n as int) =~= Seq::<(Seq<char>, Seq<char>)>::empty());
        assert(out@ + Seq::<char>::empty() =~= out@);
    }
    out
}

/// The style snippets of the used built-in components that are not replaced,
/// in table order.
pub open spec fn spec_component_styles(
    entries: Seq<(Seq<char>, Seq<char>)>,
    used: Seq<Seq<char>>,
    replaced: Seq<Seq<char>>,
) -> Seq<char>
    decreases entries,
{
    if entries.len() == 0 {
        Seq::empty()
    } else {
        (if seq_contains_str(used, entries[0].0) && !seq_contains_str(replaced, entries[0].0) {
            entries[0].1
        } else {
            Seq::empty()
        }) + spec_component_styles(entries.drop_first(), used, replaced)
    }
}

fn replace_table_has(table: &Vec<(String, ComponentReplace)>, key: &str) -> (r: bool)
    ensures
        r == seq_contains_str(table_keys(replace_view(table@)), key@),
{
    let n = table.len();
    let mut i: usize = 0;
    while i < n
        invariant
            n == table@.len(),
            i <= n,
            forall|j: int| 0 <= j < i ==> table_keys(replace_view(table@))[j] != key@,
        decreases n - i,
    {
        if str_eq(table[i].0.as_str(), key) {
            proof {
                assert(table_keys(replace_view(table@))[i as int] == key@);
            }
            return true;
        }
        i = i + 1;
    }
    false
}

/// Concatenates the style snippets of every used built-in component that the
/// replacement table does not replace.
pub fn get_harmony_component_style(ctx: &TransformContext) -> (r: String)
    ensures
        r@ == spec_component_styles(
            styles_view(ctx.config.component_styles@),
            strings_view(ctx.component_set@),
            table_keys(replace_view(ctx.config.component_replace@)),
        ),
{
    let ghost entries = styles_view(ctx.config.component_styles@);
    let ghost used = strings_view(ctx.component_set@);
    let ghost repl = table_keys(replace_view(ctx.config.component_replace@));
    let n = ctx.config.component_styles.len();
    let mut out = String::new();
    let mut i: usize = 0;
    proof {
        assert(entries.skip(0) =~= entries);
    }
    while i < n
        invariant
            n == ctx.config.component_styles@.len(),
            i <= n,
            entries == styles_view(ctx.config.component_styles@),
            used == strings_view(ctx.component_set@),
            repl == table_keys(replace_view(ctx.config.component_replace@)),
            entries.len() == n,
            spec_component_styles(entries, used, repl) == out@ + spec_component_styles(
                entries.skip(i as int),
                used,
                repl,
            ),
        decreases n - i,
    {
        proof {
            assert(entries.skip(i as int)[0] == (ctx.config.component_styles@[i as int].0@,
            ctx.config.component_styles@[i as int].1@));
            assert(entries.skip(i as int).drop_first() =~= entries.skip(i as int + 1));
        }
        let ghost out0 = out@;
        let tag_used = set_contains(&ctx.component_set, ctx.config.component_styles[i].0.as_str());
        let tag_replaced = replace_table_has(
            &ctx.config.component_replace,
            ctx.config.component_styles[i].0.as_str(),
        );
        if tag_used && !tag_replaced {
            out.append(ctx.config.component_styles[i].1.as_str());
            proof {
                assert(out@ =~= out0 + entries.skip(i as int)[0].1);
            }
        }
        i = i + 1;
    }
    proof {
        assert(entries.skip(n as int) =~= Seq::<(Seq<char>, Seq<char>)>::empty());
        assert(out@ + Seq::<char>::empty() =~= out@);
    }
    out
}

/// The indented renderer call that lazily renders a dynamic node's children
/// inside a for-each body.
pub fn create_original_node_renderer_foreach(node_name: &str) -> (r: String)
    ensures
        r@ == spec_add_spaces("createLazyChildren("@ + node_name@ + ")"@, 2),
{
    let mut code = String::new();
    code.append("createLazyChildren(");
    code.append(node_name);
    code.append(")");
    add_spaces_to_lines(code.as_str())
}

/// The indented renderer call that renders a dynamic node as a child item.
pub fn create_original_node_renderer(node_name: &str) -> (r: String)
    ensures
        r@ == spec_add_spaces(
            "createChildItem("@ + node_name@ + " as TaroElement, createLazyChildren)"@,
            2,
        ),
{
    let mut code = String::new();
    code.append("createChildItem(");
    code.append(node_name);
    code.append(" as TaroElement, createLazyChildren)");
    add_spaces_to_lines(code.as_str())
}

/// The binding a text template reads: the loop item variable when `this` is
/// disabled, else the node's registered dynamic name.
pub open spec fn spec_text_binding(node_name: Seq<char>, disable_this: bool) -> Seq<char> {
    if disable_this {
        "item"@
    } else {
        node_name
    }
}

/// Renders the host text component around the chosen node binding, indents
/// it, and records that the text component is used. The source of the text
/// component itself is platform boilerplate owned by the surrounding code
/// generator, handed in as the text before and after the binding.
pub fn create_normal_text_template(
    ctx: &mut TransformContext,
    node_name: &str,
    disable_this: bool,
    text_component_open: &str,
    text_component_close: &str,
) -> (r: String)
    ensures
        r@ == spec_add_spaces(
            text_component_open@ + spec_text_binding(node_name@, disable_this)
                + text_component_close@,
            2,
        ),
        strings_view(final(ctx).component_set@) == spec_set_insert(
            strings_view(old(ctx).component_set@),
            "text"@,
        ),
        final(ctx).namer == old(ctx).namer,
        final(ctx).node_name_vec == old(ctx).node_name_vec,
        final(ctx).config == old(ctx).config,
{
    let mut code = String::new();
    code.append(text_component_open);
    if disable_this {
        code.append("item");
    } else {
        code.append(node_name);
    }
    code.append(text_component_close);
    let out = add_spaces_to_lines(code.as_str());
    ctx.record_component("text");
    out
}

} // verus!
