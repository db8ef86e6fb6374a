//! Configuration text as a tree, and filling in what is missing from it.

use vstd::prelude::*;

verus! {

use crate::listing::concat;
use crate::text::{same, views};
use toml::Value;

/// A TOML value. Numbers with a fraction and times are kept as they are written.
#[derive(Debug)]
pub enum TomlNode {
    Text(String),
    Integer(i64),
    Float(String),
    Boolean(bool),
    Datetime(String),
    Array(Vec<TomlNode>),
    Table(Vec<(String, TomlNode)>),
}

pub enum NodeView {
    Text(Seq<char>),
    Integer(i64),
    Float(Seq<char>),
    Boolean(bool),
    Datetime(Seq<char>),
    Array(Seq<NodeView>),
    Table(Seq<(Seq<char>, NodeView)>),
}

pub open spec fn node_view(node: TomlNode) -> NodeView
    decreases node,
{
    match node {
        TomlNode::Text(text) => NodeView::Text(text@),
        TomlNode::Integer(number) => NodeView::Integer(number),
        TomlNode::Float(text) => NodeView::Float(text@),
        TomlNode::Boolean(value) => NodeView::Boolean(value),
        TomlNode::Datetime(text) => NodeView::Datetime(text@),
        TomlNode::Array(items) => NodeView::Array(item_views(items@)),
        TomlNode::Table(entries) => NodeView::Table(entry_views(entries@)),
    }
}

pub open spec fn item_views(items: Seq<TomlNode>) -> Seq<NodeView>
    decreases items,
{
    if items.len() == 0 {
        Seq::empty()
    } else {
        item_views(items.drop_last()).push(node_view(items.last()))
    }
}

pub open spec fn entry_views(entries: Seq<(String, TomlNode)>) -> Seq<(Seq<char>, NodeView)>
    decreases entries,
{
    if entries.len() == 0 {
        Seq::empty()
    } else {
        entry_views(entries.drop_last()).push((entries.last().0@, node_view(entries.last().1)))
    }
}

impl View for TomlNode {
    type V = NodeView;

    open spec fn view(&self) -> NodeView {
        node_view(*self)
    }
}

pub proof fn lemma_entry_views(entries: Seq<(String, TomlNode)>)
    ensures
        entry_views(entries).len() == entries.len(),
        forall|i: int|
            0 <= i < entries.len() ==> #[trigger] entry_views(entries)[i] == (
                entries[i].0@,
                entries[i].1@,
            ),
    decreases entries.len(),
{
    if entries.len() > 0 {
        lemma_entry_views(entries.drop_last());
    }
}

fn copy_node(node: &TomlNode) -> (r: TomlNode)
    ensures
        r@ == node@,
    decreases node,
{
    match node {
        TomlNode::Text(text) => TomlNode::Text(text.as_str().to_owned()),
        TomlNode::Integer(number) => TomlNode::Integer(*number),
        TomlNode::Float(text) => TomlNode::Float(text.as_str().to_owned()),
        TomlNode::Boolean(value) => TomlNode::Boolean(*value),
        TomlNode::Datetime(text) => TomlNode::Datetime(text.as_str().to_owned()),
        TomlNode::Array(items) => {
            let mut copies: Vec<TomlNode> = Vec::new();
            let mut i: usize = 0;
            while i < items.len()
                invariant
                    i <= items@.len(),
                    item_views(copies@) == item_views(items@.take(i as int)),
                    node == TomlNode::Array(*items),
                decreases items@.len() - i,
            {
                assert(decreases_to!(*node => node->Array_0));
                assert(decreases_to!(*items => items@));
                assert(decreases_to!(items@ => items@[i as int]));
                assert(decreases_to!(*node => items@[i as int]));
                let copy = copy_node(&items[i]);
                let ghost before = copies@;
                copies.push(copy);
                assert(copies@.drop_last() =~= before);
                assert(items@.take(i + 1).drop_last() =~= items@.take(i as int));
                i += 1;
            }
            assert(items@.take(i as int) =~= items@);
            TomlNode::Array(copies)
        },
        TomlNode::Table(entries) => {
            let mut copies: Vec<(String, TomlNode)> = Vec::new();
            let mut i: usize = 0;
            while i < entries.len()
                invariant
                    i <= entries@.len(),
                    entry_views(copies@) == entry_views(entries@.take(i as int)),
                    node == TomlNode::Table(*entries),
                decreases entries@.len() - i,
            {
                assert(decreases_to!(*node => node->Table_0));
                assert(decreases_to!(*entries => entries@));
                assert(decreases_to!(entries@ => entries@[i as int]));
                assert(decreases_to!(entries@[i as int] => entries@[i as int].1));
                let copy = copy_node(&entries[i].1);
                let key = entries[i].0.as_str().to_owned();
                let ghost before = copies@;
                copies.push((key, copy));
                assert(copies@.drop_last() =~= before);
                assert(entries@.take(i + 1).drop_last() =~= entries@.take(i as int));
                i += 1;
            }
            assert(entries@.take(i as int) =~= entries@);
            TomlNode::Table(copies)
        },
    }
}

// ---------------------------------------------------------------------------------------------
// Reading and writing

/// A TOML value of the `toml` crate.
#[verifier::external_type_specification]
#[verifier::external_body]
pub struct ExTomlValue(toml::Value);

/// What `toml::from_str` makes of a text: the tree, or the message of the error.
pub uninterp spec fn parsed_toml(text: Seq<char>) -> Result<NodeView, Seq<char>>;

/// What `toml::to_string_pretty` makes of a tree, or the message of the error.
pub uninterp spec fn written_toml(tree: NodeView) -> Result<Seq<char>, Seq<char>>;

pub open spec fn tree_result(r: Result<TomlNode, String>) -> Result<NodeView, Seq<char>> {
    match r {
        Ok(node) => Ok(node@),
        Err(message) => Err(message@),
    }
}

pub open spec fn text_result(r: Result<String, String>) -> Result<Seq<char>, Seq<char>> {
    match r {
        Ok(text) => Ok(text@),
        Err(message) => Err(message@),
    }
}

/// Changes the type of a `toml::Value`, variant for variant. The entries of a table come in the
/// order of their names, and no name comes twice.
#[verifier::external_body]
fn node_of(value: Value) -> TomlNode {
    match value {
        Value::String(text) => TomlNode::Text(text),
        Value::Integer(number) => TomlNode::Integer(number),
        Value::Float(number) => TomlNode::Float(number.to_string()),
        Value::Boolean(value) => TomlNode::Boolean(value),
        Value::Datetime(time) => TomlNode::Datetime(time.to_string()),
        Value::Array(items) => TomlNode::Array(items.into_iter().map(node_of).collect()),
        Value::Table(table) => TomlNode::Table(
            table.into_iter().map(|(name, value)| (name, node_of(value))).collect(),
        ),
    }
}

/// Changes the type back to a `toml::Value`, variant for variant; `None` where a number or a time
/// is not written as one.
#[verifier::external_body]
fn value_of(node: &TomlNode) -> Option<Value> {
    Some(match node {
        TomlNode::Text(text) => Value::String(text.clone()),
        TomlNode::Integer(number) => Value::Integer(*number),
        TomlNode::Float(text) => Value::Float(text.parse().ok()?),
        TomlNode::Boolean(value) => Value::Boolean(*value),
        TomlNode::Datetime(text) => Value::Datetime(text.parse().ok()?),
        TomlNode::Array(items) => Value::Array(items.iter().map(value_of).collect::<Option<_>>()?),
        TomlNode::Table(entries) => Value::Table(
            entries.iter().map(|(name, node)| Some((name.clone(), value_of(node)?))).collect::<Option<_>>()?,
        ),
    })
}

/// `toml::from_str` into a `toml::Value`: the tree of the text, or why there is none. The result
/// is a function of the text; which tree a text gives is not stated.
#[verifier::external_body]
pub(crate) fn parse_toml(text: &str) -> (r: Result<TomlNode, String>)
    ensures
        tree_result(r) == parsed_toml(text@),
{
    match toml::from_str::<toml::Value>(text) {
        Ok(value) => Ok(node_of(value)),
        Err(error) => Err(error.to_string()),
    }
}

/// `toml::to_string_pretty` of the tree as a `toml::Value`: its text, or why there is none. The
/// result is a function of the tree; which text a tree gives is not stated.
#[verifier::external_body]
pub(crate) fn write_toml(tree: &TomlNode) -> (r: Result<String, String>)
    ensures
        text_result(r) == written_toml(tree@),
{
    let value = value_of(tree).ok_or_else(String::new)?;
    toml::to_string_pretty(&value).map_err(|error| error.to_string())
}

// ---------------------------------------------------------------------------------------------
// Entries of tables

/// The index of the first entry with the name, or the length where there is none.
pub open spec fn position(entries: Seq<(Seq<char>, NodeView)>, name: Seq<char>) -> int
    decreases entries.len(),
{
    if entries.len() == 0 {
        0
    } else {
        let before = position(entries.drop_last(), name);
        if before < entries.len() - 1 {
            before
        } else if entries.last().0 == name {
            entries.len() - 1
        } else {
            entries.len() as int
        }
    }
}

/// The value of the first entry with the name.
pub open spec fn found(entries: Seq<(Seq<char>, NodeView)>, name: Seq<char>) -> Option<NodeView> {
    if position(entries, name) < entries.len() {
        Some(entries[position(entries, name)].1)
    } else {
        None
    }
}

pub proof fn lemma_position(entries: Seq<(Seq<char>, NodeView)>, name: Seq<char>)
    ensures
        0 <= position(entries, name) <= entries.len(),
        position(entries, name) < entries.len() ==> entries[position(entries, name)].0 == name,
        forall|i: int| 0 <= i < position(entries, name) ==> (#[trigger] entries[i]).0 != name,
    decreases entries.len(),
{
    if entries.len() > 0 {
        lemma_position(entries.drop_last(), name);
        assert forall|i: int| 0 <= i < position(entries, name) implies (#[trigger] entries[i]).0
            != name by {
            if i < entries.len() - 1 {
                assert(entries.drop_last()[i] == entries[i]);
            }
        }
    }
}

proof fn lemma_position_is(entries: Seq<(Seq<char>, NodeView)>, name: Seq<char>, at: int)
    requires
        0 <= at <= entries.len(),
        at < entries.len() ==> entries[at].0 == name,
        forall|i: int| 0 <= i < at ==> (#[trigger] entries[i]).0 != name,
    ensures
        position(entries, name) == at,
{
    lemma_position(entries, name);
    let p = position(entries, name);
    if p < at {
        assert(entries[p].0 != name);
    } else if at < p {
        assert(entries[at].0 != name);
    }
}

/// Looks an entry up by its name.
pub fn find_entry(entries: &Vec<(String, TomlNode)>, name: &str) -> (r: usize)
    ensures
        r <= entries@.len(),
        r == position(entry_views(entries@), name@),
{
    proof {
        lemma_entry_views(entries@);
    }
    let ghost shown = entry_views(entries@);
    let mut i: usize = 0;
    while i < entries.len()
        invariant
            i <= entries@.len(),
            shown.len() == entries@.len(),
            shown == entry_views(entries@),
            forall|j: int| 0 <= j < entries@.len() ==> #[trigger] shown[j] == (
                entries@[j].0@,
                entries@[j].1@,
            ),
            forall|j: int| 0 <= j < i ==> (#[trigger] shown[j]).0 != name@,
        decreases entries@.len() - i,
    {
        assert(shown[i as int].0 == entries@[i as int].0@);
        if same(entries[i].0.as_str(), name) {
            proof {
                lemma_position_is(shown, name@, i as int);
            }
            return i;
        }
        i += 1;
    }
    proof {
        lemma_position_is(shown, name@, i as int);
    }
    i
}

/// The entries with one more, or with another value for the name.
pub open spec fn with_entry(
    entries: Seq<(Seq<char>, NodeView)>,
    name: Seq<char>,
    value: NodeView,
) -> Seq<(Seq<char>, NodeView)> {
    let at = position(entries, name);
    if at < entries.len() {
        entries.update(at, (name, value))
    } else {
        entries.push((name, value))
    }
}

/// Sets the value of a name.
pub fn put_entry(entries: &mut Vec<(String, TomlNode)>, name: &str, value: TomlNode)
    ensures
        entry_views(final(entries)@) == with_entry(entry_views(old(entries)@), name@, value@),
{
    let at = find_entry(entries, name);
    let ghost before = entries@;
    let ghost shown = value@;
    proof {
        lemma_entry_views(before);
        lemma_position(entry_views(before), name@);
    }
    if at < entries.len() {
        entries.set(at, (name.to_owned(), value));
    } else {
        entries.push((name.to_owned(), value));
    }
    proof {
        lemma_entry_views(entries@);
        assert(entry_views(entries@) =~= with_entry(entry_views(before), name@, shown));
    }
}

/// Setting a value is read back, and leaves the other values alone.
pub proof fn law_set_entry_reads_back(
    entries: Seq<(Seq<char>, NodeView)>,
    name: Seq<char>,
    value: NodeView,
    other: Seq<char>,
)
    ensures
        found(with_entry(entries, name, value), name) == Some(value),
        other != name ==> found(with_entry(entries, name, value), other) == found(entries, other),
{
    let after = with_entry(entries, name, value);
    lemma_position(entries, name);
    lemma_position(entries, other);
    let at = position(entries, name);
    assert forall|i: int| 0 <= i < at implies (#[trigger] after[i]).0 != name by {
        assert(after[i] == entries[i]);
    }
    lemma_position_is(after, name, at);
    if other != name {
        let p = position(entries, other);
        assert forall|i: int| 0 <= i < p implies (#[trigger] after[i]).0 != other by {
            if i < entries.len() && i != at {
                assert(after[i] == entries[i]);
            }
        }
        if p < entries.len() {
            assert(p != at);
            lemma_position_is(after, other, p);
        } else {
            assert forall|i: int| 0 <= i < after.len() implies (#[trigger] after[i]).0
                != other by {
                if i < entries.len() && i != at {
                    assert(after[i] == entries[i]);
                }
            }
            lemma_position_is(after, other, after.len() as int);
        }
    }
}

// ---------------------------------------------------------------------------------------------
// Filling in

/// The name of an entry within the whole tree.
pub open spec fn dotted(prefix: Seq<char>, name: Seq<char>) -> Seq<char> {
    if prefix.len() == 0 {
        name
    } else {
        prefix + "."@ + name
    }
}

/// The tree with the entries that are missing from it. Values that are there stay.
pub open spec fn merged(current: NodeView, defaults: NodeView) -> NodeView
    decreases defaults,
{
    match (current, defaults) {
        (NodeView::Table(entries), NodeView::Table(wanted)) => NodeView::Table(
            merged_entries(entries, wanted),
        ),
        _ => current,
    }
}

/// The entries with all the wanted ones: tables are filled in, and what is missing is added.
pub open spec fn merged_entries(
    entries: Seq<(Seq<char>, NodeView)>,
    wanted: Seq<(Seq<char>, NodeView)>,
) -> Seq<(Seq<char>, NodeView)>
    decreases wanted,
{
    if wanted.len() == 0 {
        entries
    } else {
        let before = merged_entries(entries, wanted.drop_last());
        let (name, value) = (wanted.last().0, wanted.last().1);
        let at = position(before, name);
        if at < before.len() {
            before.update(at, (before[at].0, merged(before[at].1, wanted.last().1)))
        } else {
            before.push((name, value))
        }
    }
}

/// The names of what is added.
pub open spec fn added(current: NodeView, defaults: NodeView, prefix: Seq<char>) -> Seq<Seq<char>>
    decreases defaults,
{
    match (current, defaults) {
        (NodeView::Table(entries), NodeView::Table(wanted)) => added_entries(
            entries,
            wanted,
            prefix,
        ),
        _ => Seq::empty(),
    }
}

pub open spec fn added_entries(
    entries: Seq<(Seq<char>, NodeView)>,
    wanted: Seq<(Seq<char>, NodeView)>,
    prefix: Seq<char>,
) -> Seq<Seq<char>>
    decreases wanted,
{
    if wanted.len() == 0 {
        Seq::empty()
    } else {
        let before = merged_entries(entries, wanted.drop_last());
        let name = wanted.last().0;
        let at = position(before, name);
        added_entries(entries, wanted.drop_last(), prefix) + (if at < before.len() {
            added(before[at].1, wanted.last().1, dotted(prefix, name))
        } else {
            seq![dotted(prefix, name)]
        })
    }
}

fn dotted_name(prefix: &str, name: &str) -> (r: String)
    ensures
        r@ == dotted(prefix@, name@),
{
    if prefix.is_empty() {
        name.to_owned()
    } else {
        let mut r = concat(prefix, ".");
        r.append(name);
        r
    }
}

/// Adds to the tree what is missing from it, and notes the names of what was added.
pub fn merge_missing_toml(
    current: TomlNode,
    defaults: &TomlNode,
    prefix: &str,
    names: &mut Vec<String>,
) -> (r: TomlNode)
    ensures
        r@ == merged(current@, defaults@),
        views(final(names)@) == views(old(names)@) + added(current@, defaults@, prefix@),
    decreases defaults,
{
    let ghost nothing = Seq::<Seq<char>>::empty();
    assert(views(names@) =~= views(names@) + nothing);
    match current {
        TomlNode::Table(entries) => match defaults {
            TomlNode::Table(wanted) => {
                let ghost have = entry_views(entries@);
                let ghost want = entry_views(wanted@);
                let ghost noted = views(names@);
                proof {
                    lemma_entry_views(wanted@);
                }
                let mut entries = entries;
                let mut i: usize = 0;
                assert(want.take(0) =~= Seq::empty());
                while i < wanted.len()
                    invariant
                        i <= wanted@.len(),
                        *defaults == TomlNode::Table(*wanted),
                        want == entry_views(wanted@),
                        want.len() == wanted@.len(),
                        forall|j: int| 0 <= j < wanted@.len() ==> #[trigger] want[j] == (
                            wanted@[j].0@,
                            wanted@[j].1@,
                        ),
                        entry_views(entries@) == merged_entries(have, want.take(i as int)),
                        views(names@) == noted + added_entries(
                            have,
                            want.take(i as int),
                            prefix@,
                        ),
                    decreases wanted@.len() - i,
                {
                    assert(decreases_to!(*defaults => defaults->Table_0));
                    assert(decreases_to!(*wanted => wanted@));
                    assert(decreases_to!(wanted@ => wanted@[i as int]));
                    assert(decreases_to!(wanted@[i as int] => wanted@[i as int].1));
                    let ghost before = entries@;
                    let ghost shown = entry_views(entries@);
                    let ghost so_far = added_entries(have, want.take(i as int), prefix@);
                    proof {
                        lemma_entry_views(before);
                        assert(want.take(i + 1).drop_last() =~= want.take(i as int));
                        assert(want.take(i + 1).last() == want[i as int]);
                    }
                    let name = wanted[i].0.as_str();
                    let at = find_entry(&entries, name);
                    let full = dotted_name(prefix, name);
                    if at < entries.len() {
                        let (key, value) = entries.remove(at);
                        let ghost now = names@;
                        let filled = merge_missing_toml(value, &wanted[i].1, full.as_str(), names);
                        let ghost result = filled@;
                        entries.insert(at, (key, filled));
                        proof {
                            lemma_entry_views(entries@);
                            assert(entry_views(entries@) =~= shown.update(
                                at as int,
                                (shown[at as int].0, result),
                            ));
                            assert(views(names@) =~= noted + (so_far + added(
                                shown[at as int].1,
                                want[i as int].1,
                                full@,
                            )));
                        }
                    } else {
                        let copy = copy_node(&wanted[i].1);
                        let ghost result = copy@;
                        entries.push((name.to_owned(), copy));
                        let ghost text = full@;
                        let ghost now = names@;
                        names.push(full);
                        proof {
                            lemma_entry_views(entries@);
                            assert(entry_views(entries@) =~= shown.push((name@, result)));
                            assert(views(names@) =~= views(now).push(text));
                            assert(views(names@) =~= noted + (so_far + seq![text]));
                        }
                    }
                    i += 1;
                }
                assert(want.take(i as int) =~= want);
                TomlNode::Table(entries)
            },
            _ => TomlNode::Table(entries),
        },
        other => other,
    }
}

/// The value at the end of a path of names.
pub open spec fn lookup(node: NodeView, path: Seq<Seq<char>>) -> Option<NodeView>
    decreases path.len(),
{
    if path.len() == 0 {
        Some(node)
    } else {
        match node {
            NodeView::Table(entries) => match found(entries, path.first()) {
                Some(child) => lookup(child, path.drop_first()),
                None => None,
            },
            _ => None,
        }
    }
}

/// Filling in keeps every setting that was there.
pub proof fn law_merge_keeps_settings(
    current: NodeView,
    defaults: NodeView,
    path: Seq<Seq<char>>,
    value: NodeView,
)
    requires
        lookup(current, path) == Some(value),
        !(value is Table),
    ensures
        lookup(merged(current, defaults), path) == Some(value),
    decreases path.len(), 1nat, 0nat,
{
    if path.len() > 0 {
        if let (NodeView::Table(entries), NodeView::Table(wanted)) = (current, defaults) {
            lemma_entries_keep(entries, wanted, path, value);
        }
    }
}

proof fn lemma_entries_keep(
    entries: Seq<(Seq<char>, NodeView)>,
    wanted: Seq<(Seq<char>, NodeView)>,
    path: Seq<Seq<char>>,
    value: NodeView,
)
    requires
        path.len() > 0,
        lookup(NodeView::Table(entries), path) == Some(value),
        !(value is Table),
    ensures
        lookup(NodeView::Table(merged_entries(entries, wanted)), path) == Some(value),
    decreases path.len(), 0nat, wanted.len(),
{
    if wanted.len() > 0 {
        lemma_entries_keep(entries, wanted.drop_last(), path, value);
        let before = merged_entries(entries, wanted.drop_last());
        let after = merged_entries(entries, wanted);
        let name = path.first();
        let at = position(before, wanted.last().0);
        lemma_position(before, wanted.last().0);
        lemma_position(before, name);
        let p = position(before, name);
        assert(p < before.len());
        assert(lookup(before[p].1, path.drop_first()) == Some(value));
        assert forall|i: int| 0 <= i < p implies (#[trigger] after[i]).0 != name by {
            assert(after[i].0 == before[i].0);
        }
        assert(after[p].0 == before[p].0);
        lemma_position_is(after, name, p);
        if p == at {
            law_merge_keeps_settings(
                before[p].1,
                wanted.last().1,
                path.drop_first(),
                value,
            );
        } else {
            assert(after[p] == before[p]);
        }
    }
}

/// No table of the tree has two entries of the same name.
pub open spec fn distinctly_named(node: NodeView) -> bool
    decreases node,
{
    match node {
        NodeView::Table(entries) => entries_distinctly_named(entries),
        _ => true,
    }
}

pub open spec fn entries_distinctly_named(entries: Seq<(Seq<char>, NodeView)>) -> bool
    decreases entries,
{
    entries.len() == 0 || {
        &&& entries_distinctly_named(entries.drop_last())
        &&& distinctly_named(entries.last().1)
        &&& found(entries.drop_last(), entries.last().0) is None
    }
}

/// Nothing is missing: each wanted entry is there, and where both are tables nothing is missing
/// inside.
pub open spec fn covers(current: NodeView, defaults: NodeView) -> bool
    decreases defaults,
{
    match (current, defaults) {
        (NodeView::Table(entries), NodeView::Table(wanted)) => covers_entries(entries, wanted),
        _ => true,
    }
}

pub open spec fn covers_entries(
    entries: Seq<(Seq<char>, NodeView)>,
    wanted: Seq<(Seq<char>, NodeView)>,
) -> bool
    decreases wanted,
{
    wanted.len() == 0 || {
        &&& covers_entries(entries, wanted.drop_last())
        &&& position(entries, wanted.last().0) < entries.len()
        &&& covers(entries[position(entries, wanted.last().0)].1, wanted.last().1)
    }
}

/// A tree from which nothing is missing stays as it is.
pub proof fn law_merge_of_complete_adds_nothing(
    current: NodeView,
    defaults: NodeView,
    prefix: Seq<char>,
)
    requires
        covers(current, defaults),
    ensures
        merged(current, defaults) == current,
        added(current, defaults, prefix) == Seq::<Seq<char>>::empty(),
    decreases defaults,
{
    if let (NodeView::Table(entries), NodeView::Table(wanted)) = (current, defaults) {
        lemma_complete_entries(entries, wanted, prefix);
    }
}

proof fn lemma_complete_entries(
    entries: Seq<(Seq<char>, NodeView)>,
    wanted: Seq<(Seq<char>, NodeView)>,
    prefix: Seq<char>,
)
    requires
        covers_entries(entries, wanted),
    ensures
        merged_entries(entries, wanted) == entries,
        added_entries(entries, wanted, prefix) == Seq::<Seq<char>>::empty(),
    decreases wanted,
{
    if wanted.len() > 0 {
        lemma_complete_entries(entries, wanted.drop_last(), prefix);
        let name = wanted.last().0;
        let at = position(entries, name);
        lemma_position(entries, name);
        law_merge_of_complete_adds_nothing(
            entries[at].1,
            wanted.last().1,
            dotted(prefix, name),
        );
        assert(merged_entries(entries, wanted) =~= entries);
        assert(added_entries(entries, wanted, prefix) =~= Seq::<Seq<char>>::empty());
    }
}

/// After filling in, nothing is missing.
pub proof fn law_merge_is_complete(current: NodeView, defaults: NodeView)
    requires
        distinctly_named(defaults),
    ensures
        covers(merged(current, defaults), defaults),
    decreases defaults, 1nat,
{
    if let (NodeView::Table(entries), NodeView::Table(wanted)) = (current, defaults) {
        lemma_merged_entries_complete(entries, wanted);
    }
}

/// A tree covers itself.
proof fn lemma_covers_itself(node: NodeView)
    requires
        distinctly_named(node),
    ensures
        covers(node, node),
    decreases node, 0nat,
{
    if let NodeView::Table(entries) = node {
        lemma_entries_cover_themselves(entries, entries);
    }
}

proof fn lemma_entries_cover_themselves(
    all: Seq<(Seq<char>, NodeView)>,
    some: Seq<(Seq<char>, NodeView)>,
)
    requires
        entries_distinctly_named(some),
        some.len() <= all.len(),
        forall|i: int| 0 <= i < some.len() ==> all[i] == #[trigger] some[i],
    ensures
        covers_entries(all, some),
    decreases some, 0nat,
{
    if some.len() > 0 {
        let short = some.drop_last();
        let name = some.last().0;
        let at = some.len() - 1;
        assert forall|i: int| 0 <= i < short.len() implies all[i] == #[trigger] short[i] by {
            assert(short[i] == some[i]);
        }
        lemma_entries_cover_themselves(all, short);
        lemma_position(short, name);
        assert(all[at] == some[at]);
        assert forall|i: int| 0 <= i < at implies (#[trigger] all[i]).0 != name by {
            assert(all[i] == some[i]);
            assert(short[i] == some[i]);
        }
        lemma_position_is(all, name, at);
        lemma_covers_itself(some.last().1);
    }
}

/// One more entry, or more in a table, leaves covered what was covered.
proof fn lemma_cover_survives(
    before: Seq<(Seq<char>, NodeView)>,
    after: Seq<(Seq<char>, NodeView)>,
    wanted: Seq<(Seq<char>, NodeView)>,
    name: Seq<char>,
)
    requires
        covers_entries(before, wanted),
        found(wanted, name) is None,
        before.len() <= after.len(),
        forall|i: int| 0 <= i < before.len() ==> (#[trigger] after[i]).0 == before[i].0,
        forall|i: int|
            0 <= i < before.len() && before[i].0 != name ==> #[trigger] after[i] == before[i],
    ensures
        covers_entries(after, wanted),
    decreases wanted.len(),
{
    if wanted.len() > 0 {
        let short = wanted.drop_last();
        let last = wanted.last().0;
        lemma_position(wanted, name);
        lemma_position(short, name);
        assert(last != name) by {
            assert(wanted[wanted.len() - 1].0 != name);
        }
        assert(found(short, name) is None) by {
            let p = position(short, name);
            if p < short.len() {
                assert(short[p] == wanted[p]);
                assert(wanted[p].0 != name);
            }
        }
        lemma_cover_survives(before, after, short, name);
        lemma_position(before, last);
        let at = position(before, last);
        assert forall|i: int| 0 <= i < at implies (#[trigger] after[i]).0 != last by {
            assert(after[i].0 == before[i].0);
        }
        assert(after[at] == before[at]);
        lemma_position_is(after, last, at);
    }
}

proof fn lemma_merged_entries_complete(
    entries: Seq<(Seq<char>, NodeView)>,
    wanted: Seq<(Seq<char>, NodeView)>,
)
    requires
        entries_distinctly_named(wanted),
    ensures
        covers_entries(merged_entries(entries, wanted), wanted),
    decreases wanted, 0nat,
{
    if wanted.len() > 0 {
        let short = wanted.drop_last();
        let name = wanted.last().0;
        let value = wanted.last().1;
        lemma_merged_entries_complete(entries, short);
        let before = merged_entries(entries, short);
        let after = merged_entries(entries, wanted);
        let at = position(before, name);
        lemma_position(before, name);
        lemma_cover_survives(before, after, short, name);
        assert forall|i: int| 0 <= i < at implies (#[trigger] after[i]).0 != name by {
            assert(after[i].0 == before[i].0);
        }
        lemma_position_is(after, name, at);
        if at < before.len() {
            law_merge_is_complete(before[at].1, value);
        } else {
            lemma_covers_itself(value);
        }
    }
}

/// Filling in a second time adds nothing.
pub proof fn law_second_merge_adds_nothing(
    current: NodeView,
    defaults: NodeView,
    prefix: Seq<char>,
)
    requires
        distinctly_named(defaults),
    ensures
        merged(merged(current, defaults), defaults) == merged(current, defaults),
        added(merged(current, defaults), defaults, prefix) == Seq::<Seq<char>>::empty(),
{
    law_merge_is_complete(current, defaults);
    law_merge_of_complete_adds_nothing(merged(current, defaults), defaults, prefix);
}

proof fn lemma_found_behind(
    entries: Seq<(Seq<char>, NodeView)>,
    last: (Seq<char>, NodeView),
    name: Seq<char>,
)
    ensures
        found(entries.push(last), name) == (if found(entries, name) is Some {
            found(entries, name)
        } else if last.0 == name {
            Some(last.1)
        } else {
            None
        }),
{
    let longer = entries.push(last);
    assert(longer.drop_last() =~= entries);
    lemma_position(entries, name);
    lemma_position(longer, name);
    let at = position(entries, name);
    if at < entries.len() {
        assert(longer[at] == entries[at]);
    }
}

/// An entry that is there stays, and where the defaults have one of its name it is filled in from
/// that; an entry that is missing is the one of the defaults.
pub proof fn law_entries_are_filled_in_by_name(
    entries: Seq<(Seq<char>, NodeView)>,
    wanted: Seq<(Seq<char>, NodeView)>,
    name: Seq<char>,
)
    requires
        entries_distinctly_named(wanted),
    ensures
        found(merged_entries(entries, wanted), name) == (match (
            found(entries, name),
            found(wanted, name),
        ) {
            (None, missing) => missing,
            (Some(there), Some(default_value)) => Some(merged(there, default_value)),
            (Some(there), None) => Some(there),
        }),
    decreases wanted.len(),
{
    if wanted.len() > 0 {
        let others = wanted.drop_last();
        let last = wanted.last();
        law_entries_are_filled_in_by_name(entries, others, name);
        law_entries_are_filled_in_by_name(entries, others, last.0);
        lemma_found_behind(others, last, name);
        assert(wanted =~= others.push(last));
        let before = merged_entries(entries, others);
        lemma_position(before, last.0);
        let at = position(before, last.0);
        let value = if at < before.len() {
            merged(before[at].1, last.1)
        } else {
            last.1
        };
        assert(merged_entries(entries, wanted) == with_entry(before, last.0, value));
        law_set_entry_reads_back(before, last.0, value, name);
    }
}

proof fn lemma_named_inside(entries: Seq<(Seq<char>, NodeView)>, name: Seq<char>)
    requires
        entries_distinctly_named(entries),
        found(entries, name) is Some,
    ensures
        distinctly_named(found(entries, name)->0),
    decreases entries.len(),
{
    if entries.len() > 0 {
        let others = entries.drop_last();
        lemma_found_behind(others, entries.last(), name);
        assert(entries =~= others.push(entries.last()));
        if found(others, name) is Some {
            lemma_named_inside(others, name);
        }
    }
}

/// A setting that is missing is filled in with its default, however deep it lies, unless something
/// that is no table stands in its way.
pub proof fn law_missing_settings_come_from_the_defaults(
    current: NodeView,
    defaults: NodeView,
    path: Seq<Seq<char>>,
)
    requires
        distinctly_named(defaults),
        lookup(current, path) is None,
        lookup(defaults, path) is Some,
        forall|k: int|
            0 <= k < path.len() ==> (lookup(current, #[trigger] path.take(k)) matches Some(there)
                ==> there is Table),
    ensures
        lookup(merged(current, defaults), path) == lookup(defaults, path),
    decreases path.len(),
{
    if path.len() > 0 {
        assert(path.take(0) =~= Seq::<Seq<char>>::empty());
        assert(lookup(current, path.take(0)) == Some(current));
        let name = path.first();
        let rest = path.drop_first();
        let entries = current->Table_0;
        let wanted = defaults->Table_0;
        law_entries_are_filled_in_by_name(entries, wanted, name);
        lemma_named_inside(wanted, name);
        if let Some(there) = found(entries, name) {
            let inside = found(wanted, name)->0;
            assert forall|k: int| 0 <= k < rest.len() implies (lookup(
                there,
                #[trigger] rest.take(k),
            ) matches Some(deeper) ==> deeper is Table) by {
                let longer = path.take(k + 1);
                assert(longer.first() == name);
                assert(longer.drop_first() =~= rest.take(k));
                assert(lookup(current, longer) == lookup(there, rest.take(k)));
            }
            law_missing_settings_come_from_the_defaults(there, inside, rest);
        }
    }
}

proof fn lemma_in_front(a: Seq<Seq<char>>, b: Seq<Seq<char>>, text: Seq<char>)
    requires
        a.contains(text),
    ensures
        (a + b).contains(text),
{
    let i = choose|i: int| 0 <= i < a.len() && a[i] == text;
    assert((a + b)[i] == text);
}

/// Every entry that is missing is named among what was added, by its path with dots.
pub proof fn law_missing_entries_are_named(
    entries: Seq<(Seq<char>, NodeView)>,
    wanted: Seq<(Seq<char>, NodeView)>,
    prefix: Seq<char>,
    name: Seq<char>,
)
    requires
        entries_distinctly_named(wanted),
        found(entries, name) is None,
        found(wanted, name) is Some,
    ensures
        added_entries(entries, wanted, prefix).contains(
            if prefix.len() == 0 {
                name
            } else {
                prefix + "."@ + name
            },
        ),
    decreases wanted.len(),
{
    if wanted.len() > 0 {
        let others = wanted.drop_last();
        let last = wanted.last();
        lemma_found_behind(others, last, name);
        assert(wanted =~= others.push(last));
        let before = merged_entries(entries, others);
        law_entries_are_filled_in_by_name(entries, others, name);
        let earlier = added_entries(entries, others, prefix);
        let at = position(before, last.0);
        let more = if at < before.len() {
            added(before[at].1, last.1, dotted(prefix, last.0))
        } else {
            seq![dotted(prefix, last.0)]
        };
        assert(added_entries(entries, wanted, prefix) == earlier + more);
        if found(others, name) is Some {
            law_missing_entries_are_named(entries, others, prefix, name);
            lemma_in_front(earlier, more, dotted(prefix, name));
        } else {
            assert(more[0] == dotted(prefix, name));
            assert((earlier + more)[earlier.len() as int] == dotted(prefix, name));
        }
    }
}

} // verus!
