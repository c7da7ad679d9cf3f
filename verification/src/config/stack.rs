//! Configuration layers, held by `jj_lib`.
//!
//! A layer is a TOML document with a source; a stack keeps layers in the order
//! of their sources, and what is asked of it comes from the topmost layer that
//! has it.

use jj_lib::config::ConfigLayer;
use jj_lib::config::ConfigSource;
use jj_lib::config::StackedConfig;
use toml_edit::DocumentMut;
use toml_edit::Item;
use vstd::prelude::*;

use crate::toml;
use crate::toml::Entries;
use crate::toml::Node;

verus! {

#[verifier::external_type_specification]
#[verifier::external_body]
pub struct ExStackedConfig(jj_lib::config::StackedConfig);

#[verifier::external_type_specification]
#[verifier::external_body]
pub struct ExConfigLayer(jj_lib::config::ConfigLayer);

#[verifier::external_type_specification]
#[verifier::external_body]
pub struct ExConfigLoadError(jj_lib::config::ConfigLoadError);

/// Where a layer comes from.
#[derive(Debug, Clone, Copy, PartialEq, Eq, Structural)]
pub enum LayerSource {
    /// Default values.
    Default,
    /// User configuration files.
    User,
    /// Repo configuration files.
    Repo,
}

/// The rank of a source among all the sources that `jj_lib` knows; layers of a
/// higher rank lie above those of a lower one.
pub open spec fn rank(source: LayerSource) -> nat {
    match source {
        LayerSource::Default => 0,
        LayerSource::User => 3,
        LayerSource::Repo => 4,
    }
}

/// The layers of a stack from the bottom up: the rank of the source, and what
/// the document holds.
pub uninterp spec fn stack_layers(stack: StackedConfig) -> Seq<(nat, Seq<(Seq<char>, Node)>)>;

/// The rank of a layer's source, and what its document holds.
pub uninterp spec fn layer_content(layer: ConfigLayer) -> (nat, Seq<(Seq<char>, Node)>);

/// What the tables of one name in several layers are as one table, where upper
/// fields win over lower ones.
pub uninterp spec fn merged_tables(
    layers: Seq<(nat, Seq<(Seq<char>, Node)>)>,
    key: Seq<char>,
) -> Node;

/// Whether a node is a table of either kind; such nodes are merged.
pub open spec fn table_like(node: Node) -> bool {
    node is Section || node is Inline
}

/// A node as a value: tables under headers become inline tables.
pub open spec fn as_value(node: Node) -> Node
    decreases node,
{
    match node {
        Node::Section(entries) => Node::Inline(as_values(entries)),
        Node::Sections(tables) => Node::List(as_lists(tables)),
        other => other,
    }
}

/// The fields of a table as values.
pub open spec fn as_values(entries: Entries) -> Entries
    decreases entries,
{
    if entries.len() == 0 {
        Seq::empty()
    } else {
        as_values(entries.drop_last()).push((entries.last().0, as_value(entries.last().1)))
    }
}

/// Tables as values.
pub open spec fn as_lists(tables: Seq<Entries>) -> Seq<Node>
    decreases tables,
{
    if tables.len() == 0 {
        Seq::empty()
    } else {
        as_lists(tables.drop_last()).push(Node::Inline(as_values(tables.last())))
    }
}

/// The index of the topmost layer that has `key`, or `-1`.
pub open spec fn topmost(layers: Seq<(nat, Entries)>, key: Seq<char>) -> int
    decreases layers.len(),
{
    if layers.len() == 0 {
        -1
    } else if toml::lookup(layers.last().1, key) is Some {
        layers.len() - 1
    } else {
        topmost(layers.drop_last(), key)
    }
}

/// Whether several layers have a say in what the stack gives for `key`.
pub open spec fn merges(layers: Seq<(nat, Entries)>, key: Seq<char>) -> bool {
    let top = topmost(layers, key);
    0 <= top < layers.len() && table_like(toml::lookup(layers[top].1, key)->0) && !only_in(
        layers,
        key,
        top,
    )
}

/// What a stack gives for `key`: what the topmost layer that has the key gives
/// it, merged with what lies below where that is a table.
pub open spec fn stacked(layers: Seq<(nat, Entries)>, key: Seq<char>) -> Option<Node> {
    let top = topmost(layers, key);
    if 0 <= top < layers.len() {
        if merges(layers, key) {
            Some(merged_tables(layers, key))
        } else {
            Some(as_value(toml::lookup(layers[top].1, key)->0))
        }
    } else {
        None
    }
}

/// Whether no layer but the one at `at` has `key`.
pub open spec fn only_in(layers: Seq<(nat, Entries)>, key: Seq<char>, at: int) -> bool {
    forall|i: int|
        0 <= i < layers.len() && i != at ==> toml::lookup((#[trigger] layers[i]).1, key) is None
}

/// Where a layer of this rank goes: above all layers that do not outrank it.
pub open spec fn insert_point(layers: Seq<(nat, Entries)>, rank: nat) -> int
    decreases layers.len(),
{
    if layers.len() > 0 && layers.last().0 > rank {
        insert_point(layers.drop_last(), rank)
    } else {
        layers.len() as int
    }
}

/// The layers with one more.
pub open spec fn with_layer(layers: Seq<(nat, Entries)>, layer: (nat, Entries)) -> Seq<
    (nat, Entries),
> {
    layers.insert(insert_point(layers, layer.0), layer)
}

/// `StackedConfig::empty` has no layers.
#[verifier::external_body]
pub(crate) fn empty_stack() -> (stack: StackedConfig)
    ensures
        stack_layers(stack) == Seq::<(nat, Seq<(Seq<char>, Node)>)>::empty(),
{
    StackedConfig::empty()
}

/// Some of what jj's default values are: signatures are kept as they are, with
/// no key set, nothing is set for debugging, and the user and the operation
/// have tables of their own.
pub open spec fn jj_defaults(entries: Entries) -> bool {
    &&& toml::lookup(entries, "signing"@) matches Some(Node::Section(fields)) && toml::lookup(
        fields,
        "behavior"@,
    ) == Some(Node::Text("keep"@)) && toml::lookup(fields, "key"@) is None
    &&& toml::lookup(entries, "debug"@) == Some(Node::Section(Seq::empty()))
    &&& toml::lookup(entries, "user"@) matches Some(Node::Section(_))
    &&& toml::lookup(entries, "operation"@) matches Some(Node::Section(_))
}

/// `StackedConfig::with_defaults` has one layer, of default values; of these
/// only what [`jj_defaults`] says is said.
#[verifier::external_body]
pub(crate) fn default_stack() -> (stack: StackedConfig)
    ensures
        stack_layers(stack).len() == 1,
        stack_layers(stack)[0].0 == rank(LayerSource::Default),
        jj_defaults(stack_layers(stack)[0].1),
{
    StackedConfig::with_defaults()
}

/// `StackedConfig::add_layer` puts a layer above all layers that do not outrank
/// it.
#[verifier::external_body]
pub(crate) fn add_layer(stack: &mut StackedConfig, layer: ConfigLayer)
    ensures
        stack_layers(*final(stack)) == with_layer(stack_layers(*old(stack)), layer_content(layer)),
{
    stack.add_layer(layer)
}

/// `ConfigLayer::parse` reads a document as TOML and gives it a source.
#[verifier::external_body]
pub(crate) fn parse_layer(source: LayerSource, text: &str) -> (layer: Result<
    ConfigLayer,
    jj_lib::config::ConfigLoadError,
>)
    ensures
        match layer {
            Ok(layer) => toml::parsed_toml(text@) == Ok::<Entries, Seq<char>>(
                layer_content(layer).1,
            ) && layer_content(layer).0 == rank(source),
            Err(_) => toml::parsed_toml(text@) is Err,
        },
{
    let source = match source {
        LayerSource::Default => ConfigSource::Default,
        LayerSource::User => ConfigSource::User,
        LayerSource::Repo => ConfigSource::Repo,
    };
    ConfigLayer::parse(source, text)
}

/// `ConfigLayer::with_data` gives a document a source.
#[verifier::external_body]
pub(crate) fn layer_with_data(source: LayerSource, doc: DocumentMut) -> (layer: ConfigLayer)
    ensures
        layer_content(layer) == (rank(source), toml::document_entries(doc)),
{
    let source = match source {
        LayerSource::Default => ConfigSource::Default,
        LayerSource::User => ConfigSource::User,
        LayerSource::Repo => ConfigSource::Repo,
    };
    ConfigLayer::with_data(source, doc)
}

/// `StackedConfig::get_value` gives what the stack has for a key, and nothing
/// exactly when no layer has it. How tables of several layers are merged is
/// left unsaid beyond naming the result.
#[verifier::external_body]
pub(crate) fn get_value(stack: &StackedConfig, key: &str) -> (value: Option<Item>)
    ensures
        match value {
            Some(value) => stacked(stack_layers(*stack), key@) == Some(toml::item_node(value)),
            None => stacked(stack_layers(*stack), key@) is None,
        },
        value is Some && merges(stack_layers(*stack), key@) ==> toml::item_node(value->0)
            == merged_tables(stack_layers(*stack), key@),
{
    stack.get_value([key]).ok().map(Item::Value)
}

/// **An upper layer overrides a lower one**: a value that is no table hides
/// everything below it.
pub proof fn upper_layers_override(
    lower: Seq<(nat, Entries)>,
    top: (nat, Entries),
    key: Seq<char>,
    node: Node,
)
    requires
        toml::lookup(top.1, key) == Some(node),
        !table_like(node),
    ensures
        stacked(lower.push(top), key) == Some(as_value(node)),
{
}

/// **What an upper layer does not have shines through**, from the topmost
/// layer below that has it.
pub proof fn lower_layers_shine_through(
    lower: Seq<(nat, Entries)>,
    top: (nat, Entries),
    key: Seq<char>,
)
    requires
        toml::lookup(top.1, key) is None,
    ensures
        topmost(lower.push(top), key) == topmost(lower, key),
        merges(lower.push(top), key) == merges(lower, key),
        !merges(lower, key) ==> stacked(lower.push(top), key) == stacked(lower, key),
{
    let all = lower.push(top);
    assert(all.drop_last() =~= lower);
    lemma_topmost(lower, key);
    let at = topmost(lower, key);
    if 0 <= at {
        assert(all[at] == lower[at]);
        if only_in(lower, key, at) {
            assert forall|i: int| 0 <= i < all.len() && i != at implies toml::lookup(
                (#[trigger] all[i]).1,
                key,
            ) is None by {
                if i < lower.len() {
                    assert(all[i] == lower[i]);
                }
            }
        } else {
            let i = choose|i: int|
                0 <= i < lower.len() && i != at && toml::lookup((#[trigger] lower[i]).1, key)
                    is Some;
            assert(all[i] == lower[i]);
        }
    }
}

/// What [`topmost`] means.
pub proof fn lemma_topmost(layers: Seq<(nat, Entries)>, key: Seq<char>)
    ensures
        -1 <= topmost(layers, key) < layers.len(),
        topmost(layers, key) >= 0 ==> toml::lookup(layers[topmost(layers, key)].1, key) is Some,
    decreases layers.len(),
{
    if layers.len() > 0 && toml::lookup(layers.last().1, key) is None {
        lemma_topmost(layers.drop_last(), key);
    }
}

/// **What a name stands for is decided by the last layer that has it.**
pub proof fn the_last_layer_decides(layers: Seq<(nat, Entries)>, key: Seq<char>, i: int, node: Node)
    requires
        0 <= i < layers.len(),
        toml::lookup(layers[i].1, key) == Some(node),
        forall|j: int| i < j < layers.len() ==> toml::lookup((#[trigger] layers[j]).1, key) is None,
    ensures
        !(node is Section || node is Inline) ==> stacked(layers, key) == Some(as_value(node)),
        (forall|j: int|
            0 <= j < i ==> toml::lookup((#[trigger] layers[j]).1, key) is None) ==> stacked(
            layers,
            key,
        ) == Some(as_value(node)),
{
    lemma_topmost_is(layers, key, i);
}

proof fn lemma_topmost_is(layers: Seq<(nat, Entries)>, key: Seq<char>, i: int)
    requires
        0 <= i < layers.len(),
        toml::lookup(layers[i].1, key) is Some,
        forall|j: int| i < j < layers.len() ==> toml::lookup((#[trigger] layers[j]).1, key) is None,
    ensures
        topmost(layers, key) == i,
    decreases layers.len(),
{
    if i < layers.len() - 1 {
        assert(toml::lookup(layers[layers.len() - 1].1, key) is None);
        let less = layers.drop_last();
        assert forall|j: int| i < j < less.len() implies toml::lookup(
            (#[trigger] less[j]).1,
            key,
        ) is None by {
            assert(less[j] == layers[j]);
        }
        lemma_topmost_is(less, key, i);
    }
}

/// **A name that no layer has stands for nothing.**
pub proof fn absent_names_stand_for_nothing(layers: Seq<(nat, Entries)>, key: Seq<char>)
    requires
        forall|j: int| 0 <= j < layers.len() ==> toml::lookup((#[trigger] layers[j]).1, key) is None,
    ensures
        stacked(layers, key) is None,
{
    lemma_topmost(layers, key);
}

} // verus!
