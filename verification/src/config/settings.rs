//! Settings for reading a jj repo.

use jj_lib::config::ConfigLayer;
use jj_lib::config::StackedConfig;
use jj_lib::settings::UserSettings;
use toml_edit::Table;
use vstd::prelude::*;

use super::stack;
use super::stack::LayerSource;
use crate::toml;
use crate::toml::Entries;
use crate::toml::Node;

verus! {

#[verifier::external_type_specification]
#[verifier::external_body]
pub struct ExUserSettings(jj_lib::settings::UserSettings);

/// The layers that settings were made of, from the bottom up.
pub uninterp spec fn settings_layers(settings: UserSettings) -> Seq<
    (nat, Seq<(Seq<char>, Node)>),
>;

/// What the topmost layer that has this key under this header has for it.
pub open spec fn setting(layers: Seq<(nat, Entries)>, header: Seq<char>, key: Seq<char>) -> Option<
    Node,
>
    decreases layers.len(),
{
    if layers.len() == 0 {
        None
    } else {
        match toml::field_of(header_of(layers.last().1, header), key) {
            Some(node) => Some(node),
            None => setting(layers.drop_last(), header, key),
        }
    }
}

/// What a layer has under a header; a table without fields where it has none.
pub open spec fn header_of(entries: Entries, header: Seq<char>) -> Node {
    match toml::lookup(entries, header) {
        Some(node) => node,
        None => Node::Section(Seq::empty()),
    }
}

/// Whether every layer that has this header has a table under it.
pub open spec fn tabled(layers: Seq<(nat, Entries)>, header: Seq<char>) -> bool {
    forall|i: int| 0 <= i < layers.len() ==> header_of((#[trigger] layers[i]).1, header) is Section
}

/// Whether a setting is a string.
pub open spec fn worded(layers: Seq<(nat, Entries)>, header: Seq<char>, key: Seq<char>) -> bool {
    setting(layers, header, key) matches Some(node) && node is Text
}

/// Whether these layers name a user and where they work, keep signatures as they
/// are, and set neither a key to sign with nor anything for debugging.
pub open spec fn enough(layers: Seq<(nat, Entries)>) -> bool {
    &&& tabled(layers, "user"@)
    &&& tabled(layers, "operation"@)
    &&& tabled(layers, "signing"@)
    &&& tabled(layers, "debug"@)
    &&& worded(layers, "user"@, "name"@)
    &&& worded(layers, "user"@, "email"@)
    &&& worded(layers, "operation"@, "hostname"@)
    &&& worded(layers, "operation"@, "username"@)
    &&& setting(layers, "signing"@, "behavior"@) == Some(Node::Text("keep"@))
    &&& setting(layers, "signing"@, "key"@) is None
    &&& setting(layers, "debug"@, "randomness-seed"@) is None
    &&& setting(layers, "debug"@, "commit-timestamp"@) is None
    &&& setting(layers, "debug"@, "operation-timestamp"@) is None
}

/// `UserSettings::from_config` takes a stack over as it is, where that has all
/// that is needed and nothing else that it reads.
#[verifier::external_body]
fn make_settings(config: StackedConfig) -> (settings: Result<UserSettings, String>)
    requires
        enough(stack::stack_layers(config)),
    ensures
        settings is Ok,
        settings_layers(settings->Ok_0) == stack::stack_layers(config),
{
    UserSettings::from_config(config).map_err(|err| err.to_string())
}

/// The placeholders under one header.
pub open spec fn two_texts(
    first: Seq<char>,
    a: Seq<char>,
    second: Seq<char>,
    b: Seq<char>,
) -> Entries {
    toml::put(
        toml::put(Seq::empty(), first, Node::Text(a)),
        second,
        Node::Text(b),
    )
}

/// Placeholders for what a jj repo is not loaded without.
pub open spec fn placeholders() -> Entries {
    toml::put(
        toml::put(
            Seq::empty(),
            "user"@,
            Node::Section(two_texts("name"@, "jjunction"@, "email"@, "jjunction@localhost"@)),
        ),
        "operation"@,
        Node::Section(two_texts("username"@, "jjunction"@, "hostname"@, "localhost"@)),
    )
}

/// The layers of the settings, above these defaults.
pub open spec fn placed_above(defaults: Entries) -> Seq<(nat, Entries)> {
    seq![
        (stack::rank(LayerSource::Default), defaults),
        (stack::rank(LayerSource::Default), placeholders()),
    ]
}

fn table_of_two(first: &str, a: &str, second: &str, b: &str) -> (table: Table)
    ensures
        toml::table_entries(table) == two_texts(first@, a@, second@, b@),
{
    let mut table = toml::new_table();
    toml::assign(&mut table, first, toml::text_item(a));
    toml::assign(&mut table, second, toml::text_item(b));
    table
}

/// A layer of placeholders.
fn placeholder_layer() -> (layer: ConfigLayer)
    ensures
        stack::layer_content(layer) == (stack::rank(LayerSource::Default), placeholders()),
{
    let mut doc = toml::new_document();
    let user = table_of_two("name", "jjunction", "email", "jjunction@localhost");
    toml::assign(toml::root_mut(&mut doc), "user", toml::table_item(user));
    let operation = table_of_two("username", "jjunction", "hostname", "localhost");
    toml::assign(toml::root_mut(&mut doc), "operation", toml::table_item(operation));
    stack::layer_with_data(LayerSource::Default, doc)
}

proof fn lemma_keys_differ()
    ensures
        "name"@ != "email"@,
        "username"@ != "hostname"@,
        "user"@ != "operation"@,
        "user"@ != "signing"@,
        "user"@ != "debug"@,
        "operation"@ != "signing"@,
        "operation"@ != "debug"@,
{
    reveal_strlit("name");
    reveal_strlit("email");
    reveal_strlit("username");
    reveal_strlit("hostname");
    reveal_strlit("user");
    reveal_strlit("operation");
    reveal_strlit("signing");
    reveal_strlit("debug");
    assert("name"@.len() == 4 && "email"@.len() == 5);
    assert("username"@[0] != "hostname"@[0]);
    assert("user"@.len() == 4 && "operation"@.len() == 9 && "signing"@.len() == 7 && "debug"@.len()
        == 5);
}

/// The placeholders above the defaults are enough.
proof fn lemma_enough(defaults: Entries)
    requires
        stack::jj_defaults(defaults),
    ensures
        enough(placed_above(defaults)),
{
    lemma_keys_differ();
    let user = two_texts("name"@, "jjunction"@, "email"@, "jjunction@localhost"@);
    let operation = two_texts("username"@, "jjunction"@, "hostname"@, "localhost"@);
    let none = Seq::<(Seq<char>, Node)>::empty();
    let one = toml::put(none, "user"@, Node::Section(user));
    toml::put_is_found(none, "user"@, Node::Section(user));
    toml::put_is_found(one, "operation"@, Node::Section(operation));
    toml::put_is_found(none, "name"@, Node::Text("jjunction"@));
    toml::put_is_found(
        toml::put(none, "name"@, Node::Text("jjunction"@)),
        "email"@,
        Node::Text("jjunction@localhost"@),
    );
    toml::put_is_found(none, "username"@, Node::Text("jjunction"@));
    toml::put_is_found(
        toml::put(none, "username"@, Node::Text("jjunction"@)),
        "hostname"@,
        Node::Text("localhost"@),
    );
    let layers = placed_above(defaults);
    let lower = layers.drop_last();
    assert(lower =~= seq![(stack::rank(LayerSource::Default), defaults)]);
    assert(lower.drop_last() =~= Seq::<(nat, Entries)>::empty());
    assert(toml::lookup(placeholders(), "user"@) == Some(Node::Section(user)));
    assert(toml::lookup(placeholders(), "operation"@) == Some(Node::Section(operation)));
    assert(toml::lookup(placeholders(), "signing"@) is None);
    assert(toml::lookup(placeholders(), "debug"@) is None);
    reveal_with_fuel(setting, 3);
}

/// Read-only repo loading only needs syntactically valid settings; identity
/// placeholders suffice and never land in any commit.
pub fn synth_settings() -> (settings: Result<UserSettings, String>)
    ensures
        settings is Ok,
        exists|defaults: Entries| #[trigger] placed_above(defaults) == settings_layers(
            settings->Ok_0,
        ) && stack::jj_defaults(defaults),
{
    let mut config = stack::default_stack();
    let ghost defaults = stack::stack_layers(config)[0].1;
    stack::add_layer(&mut config, placeholder_layer());
    assert(stack::stack_layers(config) =~= placed_above(defaults));
    proof {
        lemma_enough(defaults);
    }
    make_settings(config)
}

/// **Where jj has nobody to name, `jjunction` stands in.**
pub proof fn jjunction_stands_in(defaults: Entries)
    ensures
        setting(placed_above(defaults), "user"@, "name"@) == Some(Node::Text("jjunction"@)),
        setting(placed_above(defaults), "user"@, "email"@) == Some(
            Node::Text("jjunction@localhost"@),
        ),
        setting(placed_above(defaults), "operation"@, "username"@) == Some(
            Node::Text("jjunction"@),
        ),
        setting(placed_above(defaults), "operation"@, "hostname"@) == Some(
            Node::Text("localhost"@),
        ),
{
    lemma_keys_differ();
    let none: Entries = Seq::empty();
    let user = two_texts("name"@, "jjunction"@, "email"@, "jjunction@localhost"@);
    let operation = two_texts("username"@, "jjunction"@, "hostname"@, "localhost"@);
    let name = toml::put(none, "name"@, Node::Text("jjunction"@));
    toml::put_is_found(none, "name"@, Node::Text("jjunction"@));
    toml::put_is_found(name, "email"@, Node::Text("jjunction@localhost"@));
    let username = toml::put(none, "username"@, Node::Text("jjunction"@));
    toml::put_is_found(none, "username"@, Node::Text("jjunction"@));
    toml::put_is_found(username, "hostname"@, Node::Text("localhost"@));
    let first = toml::put(none, "user"@, Node::Section(user));
    toml::put_is_found(none, "user"@, Node::Section(user));
    toml::put_is_found(first, "operation"@, Node::Section(operation));
    let layers = placed_above(defaults);
    assert(layers.last().1 == placeholders());
}

} // verus!
