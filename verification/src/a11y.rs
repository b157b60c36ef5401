//! Accessibility on the web: the tree of a frame, written for the page that mirrors it, and the
//! actions the page sends back.
//!
//! Roles and actions go by their AccessKit numbers. The page gets them by name.

use crate::json::{
    is_word, json_string, json_string_array, law_json_is_told_apart, law_value_reads_back,
    read_value, render, render_items, render_member, render_members, render_more_items,
    render_more_members, well_formed, Json, Member,
};
use crate::text::{decimal, parse_u64, parsed_u64, push_decimal, same_text};
use vstd::prelude::*;

verus! {

broadcast use vstd::string::group_string_axioms;

/// The state of a control that can be switched on and off.
#[derive(Clone, Copy, PartialEq, Eq, Debug, Structural)]
pub enum Toggled {
    False,
    True,
    Mixed,
}

/// The corners of a node's bounds, each number as it is written in JSON.
#[derive(Debug)]
pub struct BoundsText {
    pub x0: String,
    pub y0: String,
    pub x1: String,
    pub y1: String,
}

/// What the page is told about a node.
#[derive(Debug)]
pub struct A11yNode {
    pub id: u64,
    /// The number of the node's role.
    pub role: u8,
    pub label: Option<String>,
    pub description: Option<String>,
    pub shortcut: Option<String>,
    pub expanded: Option<bool>,
    pub selected: Option<bool>,
    pub toggled: Option<Toggled>,
    pub bounds: Option<BoundsText>,
    /// The numbers of the actions the node supports.
    pub actions: Vec<u8>,
    pub children: Vec<u64>,
}

/// The whole tree of a frame.
#[derive(Debug)]
pub struct TreeUpdate {
    pub nodes: Vec<A11yNode>,
    pub focus: u64,
}

/// The name of the action with number `n`.
pub open spec fn named_action(n: int) -> Option<Seq<char>> {
    if n == 0 {
        Some("Click"@)
    } else if n == 1 {
        Some("Focus"@)
    } else if n == 2 {
        Some("Blur"@)
    } else if n == 3 {
        Some("Collapse"@)
    } else if n == 4 {
        Some("Expand"@)
    } else if n == 5 {
        Some("CustomAction"@)
    } else if n == 6 {
        Some("Decrement"@)
    } else if n == 7 {
        Some("Increment"@)
    } else if n == 8 {
        Some("HideTooltip"@)
    } else if n == 9 {
        Some("ShowTooltip"@)
    } else if n == 10 {
        Some("ReplaceSelectedText"@)
    } else if n == 11 {
        Some("ScrollDown"@)
    } else if n == 12 {
        Some("ScrollLeft"@)
    } else if n == 13 {
        Some("ScrollRight"@)
    } else if n == 14 {
        Some("ScrollUp"@)
    } else if n == 15 {
        Some("ScrollIntoView"@)
    } else if n == 16 {
        Some("ScrollToPoint"@)
    } else if n == 17 {
        Some("SetScrollOffset"@)
    } else if n == 18 {
        Some("SetTextSelection"@)
    } else if n == 19 {
        Some("SetSequentialFocusNavigationStartingPoint"@)
    } else if n == 20 {
        Some("SetValue"@)
    } else if n == 21 {
        Some("ShowContextMenu"@)
    } else {
        None
    }
}

/// How many actions there are.
pub const ACTIONS: u8 = 22;

/// `accesskit::Action::n` turns a number into an action, and formatting an action for debugging
/// writes the name of its variant. The actions are numbered in the order of their declaration.
#[verifier::external_body]
fn action_name(n: u8) -> (name: Option<String>)
    ensures
        optional(name) == named_action(n as int),
{
    match accesskit::Action::n(n) {
        Some(action) => Some(format!("{:?}", action)),
        None => None,
    }
}

/// The name of the role with number `role`, or `None` where no role has that number.
pub uninterp spec fn accesskit_role_name(role: u8) -> Option<Seq<char>>;

/// `accesskit::Role::n` turns a number into a role, and formatting a role for debugging writes the
/// name of its variant. Which names there are is left unsaid.
#[verifier::external_body]
fn role_name(role: u8) -> (name: Option<String>)
    ensures
        optional(name) == accesskit_role_name(role),
{
    match accesskit::Role::n(role) {
        Some(role) => Some(format!("{:?}", role)),
        None => None,
    }
}

/// The characters of a text that may be missing.
pub open spec fn optional(text: Option<String>) -> Option<Seq<char>> {
    match text {
        Some(text) => Some(text@),
        None => None,
    }
}

/// The numbers of all actions.
pub open spec fn action_numbers() -> Seq<u8> {
    Seq::new(ACTIONS as nat, |i: int| i as u8)
}

/// The number of every action, in order.
pub fn all_actions() -> (numbers: Vec<u8>)
    ensures
        numbers@ == action_numbers(),
        forall|n: u8| numbers@.contains(n) <==> named_action(n as int) is Some,
{
    let mut numbers: Vec<u8> = Vec::new();
    let mut n: u8 = 0;
    while n < 64
        invariant
            n <= 64,
            numbers@ == Seq::new(
                (if n < ACTIONS {
                    n
                } else {
                    ACTIONS
                }) as nat,
                |i: int| i as u8,
            ),
        decreases 64 - n,
    {
        if action_name(n).is_some() {
            numbers.push(n);
        }
        n = n + 1;
    }
    proof {
        assert forall|n: u8| numbers@.contains(n) <==> named_action(n as int) is Some by {
            if named_action(n as int) is Some {
                assert(numbers@[n as int] == n);
            }
        }
    }
    numbers
}

/// The action called `name`.
pub open spec fn action_called(name: Seq<char>) -> Option<u8> {
    if exists|n: u8| #[trigger] named_action(n as int) == Some(name) {
        Some(choose|n: u8| #[trigger] named_action(n as int) == Some(name))
    } else {
        None
    }
}

/// Tells the actions apart by their names.
spec fn number_told(name: Seq<char>) -> int {
    if name.len() == 4 {
        2
    } else if name.len() == 5 {
        if name[0] == 'C' {
            0
        } else {
            1
        }
    } else if name.len() == 6 {
        4
    } else if name.len() == 8 {
        if name[0] == 'C' {
            3
        } else if name[1] == 'c' {
            14
        } else {
            20
        }
    } else if name.len() == 9 {
        if name[0] == 'D' {
            6
        } else {
            7
        }
    } else if name.len() == 10 {
        if name[6] == 'D' {
            11
        } else {
            12
        }
    } else if name.len() == 11 {
        if name[0] == 'H' {
            8
        } else if name[1] == 'h' {
            9
        } else {
            13
        }
    } else if name.len() == 12 {
        5
    } else if name.len() == 13 {
        16
    } else if name.len() == 14 {
        15
    } else if name.len() == 15 {
        if name[1] == 'e' {
            17
        } else {
            21
        }
    } else if name.len() == 16 {
        18
    } else if name.len() == 19 {
        10
    } else {
        19
    }
}

proof fn lemma_number_told(n: int)
    requires
        named_action(n) is Some,
    ensures
        number_told(named_action(n)->0) == n,
{
    reveal_strlit("Click");
    reveal_strlit("Focus");
    reveal_strlit("Blur");
    reveal_strlit("Collapse");
    reveal_strlit("Expand");
    reveal_strlit("CustomAction");
    reveal_strlit("Decrement");
    reveal_strlit("Increment");
    reveal_strlit("HideTooltip");
    reveal_strlit("ShowTooltip");
    reveal_strlit("ReplaceSelectedText");
    reveal_strlit("ScrollDown");
    reveal_strlit("ScrollLeft");
    reveal_strlit("ScrollRight");
    reveal_strlit("ScrollUp");
    reveal_strlit("ScrollIntoView");
    reveal_strlit("ScrollToPoint");
    reveal_strlit("SetScrollOffset");
    reveal_strlit("SetTextSelection");
    reveal_strlit("SetSequentialFocusNavigationStartingPoint");
    reveal_strlit("SetValue");
    reveal_strlit("ShowContextMenu");
}

/// No two actions have the same name.
pub proof fn law_action_names_differ(a: int, b: int)
    requires
        named_action(a) is Some,
        named_action(a) == named_action(b),
    ensures
        a == b,
{
    lemma_number_told(a);
    lemma_number_told(b);
}

/// An action is found again by its name.
pub proof fn law_action_is_found_by_name(n: u8)
    requires
        named_action(n as int) is Some,
    ensures
        action_called(named_action(n as int)->0) == Some(n),
{
    let name = named_action(n as int)->0;
    let found = choose|m: u8| #[trigger] named_action(m as int) == Some(name);
    assert(named_action(n as int) == Some(name));
    law_action_names_differ(n as int, found as int);
}

/// The number of the action called `name`.
pub fn action_from_name(name: &str) -> (found: Option<u8>)
    ensures
        found == action_called(name@),
{
    let numbers = all_actions();
    let mut i: usize = 0;
    while i < numbers.len()
        invariant
            i <= numbers.len(),
            numbers@ == action_numbers(),
            forall|j: int| 0 <= j < i ==> #[trigger] named_action(j) != Some(name@),
        decreases numbers.len() - i,
    {
        let n: u8 = numbers[i];
        match action_name(n) {
            Some(candidate) => {
                if same_text(candidate.as_str(), name) {
                    proof {
                        law_action_is_found_by_name(n);
                    }
                    return Some(n);
                }
            },
            None => {},
        }
        i = i + 1;
    }
    None
}

/// An action to perform on a node.
#[derive(Clone, Copy, PartialEq, Eq, Debug, Structural)]
pub struct ActionRequest {
    pub node: u64,
    /// The number of the action.
    pub action: u8,
}

pub open spec fn requested(id: Seq<char>, action: Seq<char>) -> Option<ActionRequest> {
    match (parsed_u64(id), action_called(action)) {
        (Some(node), Some(action)) => Some(ActionRequest { node, action }),
        _ => None,
    }
}

/// What the page asks for when it dispatches an action to a node by its id: nothing when the id is
/// not a number or no action has that name.
pub fn dispatch(id: &str, action: &str) -> (request: Option<ActionRequest>)
    ensures
        request == requested(id@, action@),
{
    match parse_u64(id) {
        Some(node) => match action_from_name(action) {
            Some(action) => Some(ActionRequest { node, action }),
            None => None,
        },
        None => None,
    }
}

/// The page can act on any node it was told of, with any action it was told of: the id and the
/// name it got lead back to them.
pub proof fn law_dispatch_reaches_the_node(node: u64, action: u8)
    requires
        named_action(action as int) is Some,
    ensures
        requested(decimal(node as nat), named_action(action as int)->0) == Some(
            ActionRequest { node, action },
        ),
{
    crate::text::law_decimal_round_trip(node);
    law_action_is_found_by_name(action);
}

pub open spec fn bool_value(b: bool) -> Json {
    Json::Word(
        if b {
            "true"@
        } else {
            "false"@
        },
    )
}

/// A member with this name, where there is a value.
pub open spec fn member_if(name: Seq<char>, value: Option<Json>) -> Seq<Member> {
    match value {
        Some(value) => seq![Member { name, value }],
        None => Seq::empty(),
    }
}

pub open spec fn text_if(text: Option<Seq<char>>) -> Option<Json> {
    match text {
        Some(text) => Some(Json::Text(text)),
        None => None,
    }
}

pub open spec fn bool_if(b: Option<bool>) -> Option<Json> {
    match b {
        Some(b) => Some(bool_value(b)),
        None => None,
    }
}

pub open spec fn toggled_if(toggled: Option<Toggled>) -> Option<Json> {
    match toggled {
        Some(Toggled::True) => Some(Json::Text("true"@)),
        Some(Toggled::False) => Some(Json::Text("false"@)),
        Some(Toggled::Mixed) => Some(Json::Text("mixed"@)),
        None => None,
    }
}

pub open spec fn bounds_if(bounds: Option<BoundsText>) -> Option<Json> {
    match bounds {
        Some(bounds) => Some(
            Json::Array(
                seq![
                    Json::Word(bounds.x0@),
                    Json::Word(bounds.y0@),
                    Json::Word(bounds.x1@),
                    Json::Word(bounds.y1@),
                ],
            ),
        ),
        None => None,
    }
}

pub open spec fn focused_if(focused: bool) -> Option<Json> {
    if focused {
        Some(bool_value(true))
    } else {
        None
    }
}

/// An array of texts, or nothing when there are none.
pub open spec fn texts_if(texts: Seq<Seq<char>>) -> Option<Json> {
    if texts.len() == 0 {
        None
    } else {
        Some(Json::Array(Seq::new(texts.len(), |i: int| Json::Text(texts[i]))))
    }
}

/// The names of those of the actions `numbers` that are among `actions`, in the order of
/// `numbers`.
pub open spec fn supported_names(actions: Seq<u8>, numbers: Seq<u8>) -> Seq<Seq<char>>
    decreases numbers.len(),
{
    if numbers.len() == 0 {
        Seq::empty()
    } else if actions.contains(numbers.last()) {
        supported_names(actions, numbers.drop_last()).push(
            named_action(numbers.last() as int)->0,
        )
    } else {
        supported_names(actions, numbers.drop_last())
    }
}

pub open spec fn child_ids(children: Seq<u64>) -> Seq<Seq<char>> {
    Seq::new(children.len(), |i: int| decimal(children[i] as nat))
}

/// What follows the role in a node's object.
pub open spec fn node_details(node: A11yNode, focused: bool) -> Seq<Member> {
    member_if("label"@, text_if(optional(node.label))) + member_if(
        "description"@,
        text_if(optional(node.description)),
    ) + member_if("shortcut"@, text_if(optional(node.shortcut))) + member_if(
        "expanded"@,
        bool_if(node.expanded),
    ) + member_if("selected"@, bool_if(node.selected)) + member_if(
        "toggled"@,
        toggled_if(node.toggled),
    ) + member_if("bounds"@, bounds_if(node.bounds)) + member_if(
        "focused"@,
        focused_if(focused),
    ) + member_if("actions"@, texts_if(supported_names(node.actions@, action_numbers())))
        + member_if("children"@, texts_if(child_ids(node.children@)))
}

pub open spec fn node_members(node: A11yNode, role: Seq<char>, focused: bool) -> Seq<Member> {
    seq![Member { name: "role"@, value: Json::Text(role) }] + node_details(node, focused)
}

/// A node as the page gets it: its id, and an object with what is known of it.
pub open spec fn node_value(node: A11yNode, role: Seq<char>, focused: bool) -> Json {
    Json::Array(
        seq![
            Json::Text(decimal(node.id as nat)),
            Json::Object(node_members(node, role, focused)),
        ],
    )
}

/// The tree as the page gets it.
pub open spec fn tree_value(nodes: Seq<A11yNode>, roles: Seq<Seq<char>>, focus: u64) -> Json {
    Json::Array(
        Seq::new(
            nodes.len(),
            |i: int| node_value(nodes[i], roles[i], nodes[i].id == focus),
        ),
    )
}

proof fn lemma_more_members_add(a: Seq<Member>, b: Seq<Member>)
    ensures
        render_more_members(a + b) == render_more_members(a) + render_more_members(b),
    decreases a.len(),
{
    let both = a + b;
    if a.len() == 0 {
        assert(both =~= b);
        assert(render_more_members(both) =~= render_more_members(a) + render_more_members(b));
    } else {
        let more = a.subrange(1, a.len() as int);
        lemma_more_members_add(more, b);
        assert(both.subrange(1, both.len() as int) =~= more + b);
        assert(render_more_members(both) =~= render_more_members(a) + render_more_members(b));
    }
}

proof fn lemma_one_more_member(member: Member)
    ensures
        render_more_members(seq![member]) == seq![','] + render_member(member),
{
    let one = seq![member];
    assert(one.subrange(1, 1) =~= Seq::<Member>::empty());
    assert(render_more_members(one.subrange(1, 1)) =~= Seq::<char>::empty());
    assert(render_more_members(one) =~= seq![','] + render_member(member));
}

/// Whether `text` is the text of `value`, where there is one.
spec fn written_as(text: Option<String>, value: Option<Json>) -> bool {
    &&& text is Some <==> value is Some
    &&& text is Some ==> text->0@ == render(value->0)
}

/// The members of an object that follow its first one, as they are written one by one.
struct Details {
    text: String,
    members: Ghost<Seq<Member>>,
}

impl Details {
    spec fn wf(self) -> bool {
        self.text@ == render_more_members(self.members@)
    }

    fn new() -> (details: Details)
        ensures
            details.wf(),
            details.members@ == Seq::<Member>::empty(),
    {
        let details = Details { text: String::new(), members: Ghost(Seq::empty()) };
        assert(details.text@ =~= render_more_members(details.members@));
        details
    }

    /// Writes a member whose value's text is `text`; nothing where there is no value.
    fn push(&mut self, name: &str, text: Option<String>, Ghost(value): Ghost<Option<Json>>)
        requires
            old(self).wf(),
            written_as(text, value),
        ensures
            final(self).wf(),
            final(self).members@ == old(self).members@ + member_if(name@, value),
    {
        match text {
            Some(text) => {
                self.text.push(',');
                let name_text = json_string(name);
                self.text.append(name_text.as_str());
                self.text.push(':');
                self.text.append(text.as_str());
                proof {
                    let member = Member { name: name@, value: value->0 };
                    lemma_one_more_member(member);
                    lemma_more_members_add(self.members@, seq![member]);
                    self.members@ = self.members@ + seq![member];
                    assert(self.text@ =~= old(self).text@ + (seq![','] + render_member(member)));
                }
            },
            None => {
                assert(self.members@ =~= self.members@ + member_if(name@, None));
            },
        }
    }
}

fn write_text(text: &Option<String>) -> (written: Option<String>)
    ensures
        written_as(written, text_if(optional(*text))),
{
    match text {
        Some(text) => Some(json_string(text.as_str())),
        None => None,
    }
}

fn write_bool(b: Option<bool>) -> (written: Option<String>)
    ensures
        written_as(written, bool_if(b)),
{
    match b {
        Some(true) => Some("true".to_owned()),
        Some(false) => Some("false".to_owned()),
        None => None,
    }
}

fn write_focused(focused: bool) -> (written: Option<String>)
    ensures
        written_as(written, focused_if(focused)),
{
    if focused {
        Some("true".to_owned())
    } else {
        None
    }
}

fn write_toggled(toggled: Option<Toggled>) -> (written: Option<String>)
    ensures
        written_as(written, toggled_if(toggled)),
{
    match toggled {
        Some(Toggled::True) => Some(json_string("true")),
        Some(Toggled::False) => Some(json_string("false")),
        Some(Toggled::Mixed) => Some(json_string("mixed")),
        None => None,
    }
}

fn write_bounds(bounds: &Option<BoundsText>) -> (written: Option<String>)
    ensures
        written_as(written, bounds_if(*bounds)),
{
    match bounds {
        Some(corners) => {
            let mut text = String::new();
            text.push('[');
            text.append(corners.x0.as_str());
            text.push(',');
            text.append(corners.y0.as_str());
            text.push(',');
            text.append(corners.x1.as_str());
            text.push(',');
            text.append(corners.y1.as_str());
            text.push(']');
            proof {
                let items = seq![
                    Json::Word(corners.x0@),
                    Json::Word(corners.y0@),
                    Json::Word(corners.x1@),
                    Json::Word(corners.y1@),
                ];
                reveal_with_fuel(render_more_items, 4);
                assert(items.subrange(1, 4).subrange(1, 3) =~= items.subrange(2, 4));
                assert(items.subrange(2, 4).subrange(1, 2) =~= items.subrange(3, 4));
                assert(render(items[0]) == corners.x0@ && render(items[1]) == corners.y0@);
                assert(render(items[2]) == corners.x1@ && render(items[3]) == corners.y1@);
                assert(render_more_items(items.subrange(3, 4)) =~= seq![','] + corners.y1@);
                assert(render_more_items(items.subrange(2, 4)) =~= seq![','] + corners.x1@
                    + seq![','] + corners.y1@);
                assert(render_more_items(items.subrange(1, 4)) =~= seq![','] + corners.y0@
                    + seq![','] + corners.x1@ + seq![','] + corners.y1@);
                assert(text@ =~= render(Json::Array(items)));
            }
            Some(text)
        },
        None => None,
    }
}

/// Writes an array of texts, unless there are none.
fn write_texts(texts: &[String], Ghost(views): Ghost<Seq<Seq<char>>>) -> (written: Option<String>)
    requires
        texts.len() == views.len(),
        forall|i: int| 0 <= i < texts.len() ==> (#[trigger] texts@[i])@ == views[i],
    ensures
        written_as(written, texts_if(views)),
{
    if texts.len() > 0 {
        assert(crate::json::texts(texts@) =~= Seq::new(
            views.len(),
            |i: int| Json::Text(views[i]),
        ));
        Some(json_string_array(texts))
    } else {
        None
    }
}

fn supports(actions: &[u8], n: u8) -> (there: bool)
    ensures
        there == actions@.contains(n),
{
    let mut i: usize = 0;
    while i < actions.len()
        invariant
            i <= actions.len(),
            forall|j: int| 0 <= j < i ==> #[trigger] actions@[j] != n,
        decreases actions.len() - i,
    {
        if actions[i] == n {
            return true;
        }
        i = i + 1;
    }
    false
}

/// The names of the actions among `actions`, in the order of all actions.
pub fn supported_action_names(actions: &[u8]) -> (names: Vec<String>)
    ensures
        names.len() == supported_names(actions@, action_numbers()).len(),
        forall|i: int|
            0 <= i < names.len() ==> (#[trigger] names@[i])@ == supported_names(
                actions@,
                action_numbers(),
            )[i],
{
    let numbers = all_actions();
    let mut names: Vec<String> = Vec::new();
    let mut i: usize = 0;
    while i < numbers.len()
        invariant
            i <= numbers.len(),
            numbers@ == action_numbers(),
            names.len() == supported_names(actions@, numbers@.take(i as int)).len(),
            forall|j: int|
                0 <= j < names.len() ==> (#[trigger] names@[j])@ == supported_names(
                    actions@,
                    numbers@.take(i as int),
                )[j],
        decreases numbers.len() - i,
    {
        let n: u8 = numbers[i];
        assert(numbers@.take(i as int + 1).drop_last() =~= numbers@.take(i as int));
        if supports(actions, n) {
            match action_name(n) {
                Some(name) => names.push(name),
                None => {},
            }
        }
        i = i + 1;
    }
    assert(numbers@.take(i as int) =~= numbers@);
    names
}

fn decimal_text(n: u64) -> (text: String)
    ensures
        text@ == decimal(n as nat),
{
    let mut text = String::new();
    push_decimal(&mut text, n as u128);
    assert(text@ =~= decimal(n as nat));
    text
}

fn child_id_texts(children: &[u64]) -> (texts: Vec<String>)
    ensures
        texts.len() == children.len(),
        forall|i: int|
            0 <= i < texts.len() ==> (#[trigger] texts@[i])@ == child_ids(children@)[i],
{
    let mut texts: Vec<String> = Vec::new();
    let mut i: usize = 0;
    while i < children.len()
        invariant
            i <= children.len(),
            texts.len() == i,
            forall|j: int| 0 <= j < i ==> (#[trigger] texts@[j])@ == child_ids(children@)[j],
        decreases children.len() - i,
    {
        texts.push(decimal_text(children[i]));
        i = i + 1;
    }
    texts
}

/// What follows the role in a node's object.
fn write_details(node: &A11yNode, focused: bool) -> (written: String)
    ensures
        written@ == render_more_members(node_details(*node, focused)),
{
    let ghost names = supported_names(node.actions@, action_numbers());
    let ghost ids = child_ids(node.children@);
    let names_text = supported_action_names(node.actions.as_slice());
    let ids_text = child_id_texts(node.children.as_slice());
    let mut details = Details::new();
    details.push("label", write_text(&node.label), Ghost(text_if(optional(node.label))));
    details.push(
        "description",
        write_text(&node.description),
        Ghost(text_if(optional(node.description))),
    );
    details.push("shortcut", write_text(&node.shortcut), Ghost(text_if(optional(node.shortcut))));
    details.push("expanded", write_bool(node.expanded), Ghost(bool_if(node.expanded)));
    details.push("selected", write_bool(node.selected), Ghost(bool_if(node.selected)));
    details.push("toggled", write_toggled(node.toggled), Ghost(toggled_if(node.toggled)));
    details.push("bounds", write_bounds(&node.bounds), Ghost(bounds_if(node.bounds)));
    details.push("focused", write_focused(focused), Ghost(focused_if(focused)));
    details.push(
        "actions",
        write_texts(names_text.as_slice(), Ghost(names)),
        Ghost(texts_if(names)),
    );
    details.push("children", write_texts(ids_text.as_slice(), Ghost(ids)), Ghost(texts_if(ids)));
    assert(details.members@ =~= node_details(*node, focused));
    details.text
}

/// A node as the page gets it, given the name of its role.
pub fn node_json(node: &A11yNode, role: &str, focused: bool) -> (json: String)
    ensures
        json@ == render(node_value(*node, role@, focused)),
{
    let id = decimal_text(node.id);
    let id_text = json_string(id.as_str());
    let role_key = json_string("role");
    let role_text = json_string(role);
    let mut json = String::new();
    json.push('[');
    json.append(id_text.as_str());
    json.push(',');
    json.push('{');
    json.append(role_key.as_str());
    json.push(':');
    json.append(role_text.as_str());
    let details = write_details(node, focused);
    json.append(details.as_str());
    json.push('}');
    json.push(']');
    proof {
        let members = node_members(*node, role@, focused);
        let details = node_details(*node, focused);
        assert(members.subrange(1, members.len() as int) =~= details);
        assert(render_members(members) == render_member(members[0]) + render_more_members(details));
        let items = seq![Json::Text(decimal(node.id as nat)), Json::Object(members)];
        let more = items.subrange(1, 2);
        assert(more.subrange(1, 1) =~= Seq::<Json>::empty());
        assert(more[0] == items[1]);
        assert(render_more_items(more.subrange(1, 1)) =~= Seq::<char>::empty());
        assert(render_more_items(more) =~= seq![','] + render(Json::Object(members)));
        assert(json@ =~= render(Json::Array(items)));
    }
    json
}

/// The tree as the page gets it, given the names of the nodes' roles.
pub fn nodes_json(nodes: &[A11yNode], roles: &[String], focus: u64) -> (json: String)
    requires
        nodes.len() == roles.len(),
    ensures
        json@ == render(
            tree_value(nodes@, Seq::new(roles@.len(), |i: int| roles@[i]@), focus),
        ),
{
    let ghost names = Seq::new(roles@.len(), |i: int| roles@[i]@);
    let ghost all = tree_value(nodes@, names, focus)->Array_0;
    let mut json = String::new();
    json.push('[');
    let mut i: usize = 0;
    assert(all.skip(0) =~= all);
    assert(json@ + render_items(all) =~= seq!['['] + render_items(all));
    while i < nodes.len()
        invariant
            i <= nodes.len(),
            nodes.len() == roles.len(),
            names == Seq::new(roles@.len(), |i: int| roles@[i]@),
            all == tree_value(nodes@, names, focus)->Array_0,
            json@ + (if i == 0 {
                render_items(all.skip(i as int))
            } else {
                render_more_items(all.skip(i as int))
            }) == seq!['['] + render_items(all),
        decreases nodes.len() - i,
    {
        let ghost before = json@;
        let ghost rest = all.skip(i as int);
        if i > 0 {
            json.push(',');
        }
        let node = node_json(&nodes[i], roles[i].as_str(), nodes[i].id == focus);
        json.append(node.as_str());
        proof {
            assert(rest[0] == all[i as int]);
            assert(rest.subrange(1, rest.len() as int) =~= all.skip(i as int + 1));
            let more = render_more_items(all.skip(i as int + 1));
            if i == 0 {
                assert(json@ + more =~= before + (render(rest[0]) + more));
            } else {
                assert(json@ + more =~= before + (seq![','] + render(rest[0]) + more));
            }
        }
        i = i + 1;
    }
    assert(all.skip(i as int) =~= Seq::<Json>::empty());
    assert(json@ =~= seq!['['] + render_items(all));
    json.push(']');
    assert(json@ =~= render(Json::Array(all)));
    json
}

/// Whether every node's role has a name.
pub open spec fn roles_are_known(nodes: Seq<A11yNode>) -> bool {
    forall|i: int| 0 <= i < nodes.len() ==> accesskit_role_name((#[trigger] nodes[i]).role) is Some
}

/// The names of the nodes' roles.
pub open spec fn role_names(nodes: Seq<A11yNode>) -> Seq<Seq<char>> {
    Seq::new(nodes.len(), |i: int| accesskit_role_name(nodes[i].role)->0)
}

fn known_roles(nodes: &[A11yNode]) -> (roles: Option<Vec<String>>)
    ensures
        roles is Some <==> roles_are_known(nodes@),
        roles is Some ==> roles->0.len() == nodes.len() && forall|i: int|
            0 <= i < nodes.len() ==> (#[trigger] roles->0@[i])@ == role_names(nodes@)[i],
{
    let mut roles: Vec<String> = Vec::new();
    let mut i: usize = 0;
    while i < nodes.len()
        invariant
            i <= nodes.len(),
            roles.len() == i,
            forall|j: int|
                0 <= j < i ==> accesskit_role_name((#[trigger] nodes@[j]).role) is Some,
            forall|j: int| 0 <= j < i ==> (#[trigger] roles@[j])@ == role_names(nodes@)[j],
        decreases nodes.len() - i,
    {
        match role_name(nodes[i].role) {
            Some(role) => roles.push(role),
            None => {
                assert(accesskit_role_name(nodes@[i as int].role) is None);
                return None;
            },
        }
        i = i + 1;
    }
    Some(roles)
}

/// What the page is sent for a frame.
#[derive(Debug)]
pub struct PageUpdate {
    /// The key of the window's mirror.
    pub window: u32,
    pub nodes_json: String,
    /// The id of the focused node.
    pub focus: String,
}

/// One window's mirror; `window` is its key in the page's mirror table, 0 when the mirror is off.
#[derive(Clone, Copy, PartialEq, Eq, Debug, Structural)]
pub struct WebA11y {
    pub window: u32,
}

impl WebA11y {
    /// A mirror that the page has not been asked for yet.
    pub fn new() -> (mirror: Self)
        ensures
            mirror.window == 0,
    {
        WebA11y { window: 0 }
    }

    /// Takes the key the page gave the mirror. Tells whether the tree is wanted, which it is from
    /// the first frame unless the mirror is off: the page is the assistive client.
    pub fn start(&mut self, window: u32) -> (activate: bool)
        ensures
            final(self).window == window,
            activate <==> window != 0,
    {
        self.window = window;
        window != 0
    }

    /// What the page is sent for the tree of a frame: nothing when the mirror is off, nor when a
    /// node's role has no name.
    pub fn tree_update(&self, update: &TreeUpdate) -> (sent: Option<PageUpdate>)
        ensures
            sent is Some <==> self.window != 0 && roles_are_known(update.nodes@),
            sent is Some ==> {
                &&& sent->0.window == self.window
                &&& sent->0.nodes_json@ == render(
                    tree_value(update.nodes@, role_names(update.nodes@), update.focus),
                )
                &&& sent->0.focus@ == decimal(update.focus as nat)
            },
    {
        if self.window == 0 {
            return None;
        }
        match known_roles(update.nodes.as_slice()) {
            Some(roles) => {
                assert(Seq::new(roles@.len(), |i: int| roles@[i]@) =~= role_names(update.nodes@));
                let nodes_json = nodes_json(
                    update.nodes.as_slice(),
                    roles.as_slice(),
                    update.focus,
                );
                let focus = decimal_text(update.focus);
                Some(PageUpdate { window: self.window, nodes_json, focus })
            },
            None => None,
        }
    }

    /// The mirror the page has to take down when the window closes.
    pub fn stop(&self) -> (window: Option<u32>)
        ensures
            window == if self.window != 0 {
                Some(self.window)
            } else {
                None
            },
    {
        if self.window != 0 {
            Some(self.window)
        } else {
            None
        }
    }
}

proof fn lemma_supported_names(actions: Seq<u8>, numbers: Seq<u8>, n: u8)
    requires
        named_action(n as int) is Some,
        forall|i: int|
            0 <= i < numbers.len() ==> named_action((#[trigger] numbers[i]) as int) is Some,
    ensures
        supported_names(actions, numbers).contains(named_action(n as int)->0) <==> actions.contains(
            n,
        ) && numbers.contains(n),
    decreases numbers.len(),
{
    let name = named_action(n as int)->0;
    let names = supported_names(actions, numbers);
    if numbers.len() > 0 {
        let last = numbers.last();
        let before = numbers.drop_last();
        let names_before = supported_names(actions, before);
        lemma_supported_names(actions, before, n);
        assert(numbers =~= before.push(last));
        assert(named_action(last as int) is Some);
        if before.contains(n) {
            let i = before.index_of(n);
            assert(numbers[i] == n);
        }
        if numbers.contains(n) && n != last {
            let i = choose|i: int| 0 <= i < numbers.len() && numbers[i] == n;
            assert(before[i] == n);
        }
        if n == last {
            assert(numbers[numbers.len() - 1] == n);
        }
        if actions.contains(last) {
            assert(names == names_before.push(named_action(last as int)->0));
            assert(names[names.len() - 1] == named_action(last as int)->0);
            if names_before.contains(name) {
                let i = choose|i: int| 0 <= i < names_before.len() && names_before[i] == name;
                assert(names[i] == name);
            }
            if names.contains(name) {
                let i = choose|i: int| 0 <= i < names.len() && names[i] == name;
                if i < names_before.len() {
                    assert(names_before[i] == name);
                } else {
                    law_action_names_differ(n as int, last as int);
                }
            }
        }
    }
}

/// The page is told an action of a node exactly when the node supports it.
pub proof fn law_listed_actions_are_the_supported_ones(actions: Seq<u8>, n: u8)
    requires
        named_action(n as int) is Some,
    ensures
        supported_names(actions, action_numbers()).contains(named_action(n as int)->0)
            <==> actions.contains(n),
{
    lemma_supported_names(actions, action_numbers(), n);
    assert(action_numbers()[n as int] == n);
}

/// The value of the member called `name`.
pub open spec fn member_named(members: Seq<Member>, name: Seq<char>) -> Option<Json>
    decreases members.len(),
{
    if members.len() == 0 {
        None
    } else if members[0].name == name {
        Some(members[0].value)
    } else {
        member_named(members.skip(1), name)
    }
}

proof fn lemma_member_named_add(a: Seq<Member>, b: Seq<Member>, name: Seq<char>)
    ensures
        member_named(a + b, name) == (if member_named(a, name) is Some {
            member_named(a, name)
        } else {
            member_named(b, name)
        }),
    decreases a.len(),
{
    let both = a + b;
    if a.len() == 0 {
        assert(both =~= b);
    } else {
        assert(both.skip(1) =~= a.skip(1) + b);
        lemma_member_named_add(a.skip(1), b, name);
    }
}

proof fn lemma_member_named_if(called: Seq<char>, value: Option<Json>, name: Seq<char>)
    ensures
        member_named(member_if(called, value), name) == (if called == name {
            value
        } else {
            None
        }),
{
    let members = member_if(called, value);
    if value is Some {
        assert(members.skip(1) =~= Seq::<Member>::empty());
        assert(member_named(members.skip(1), name) is None);
    }
}

/// One of two members with different names, or what is in neither.
spec fn or_else(first: Option<Json>, second: Option<Json>) -> Option<Json> {
    if first is Some {
        first
    } else {
        second
    }
}

spec fn value_if(called: Seq<char>, value: Option<Json>, name: Seq<char>) -> Option<Json> {
    if called == name {
        value
    } else {
        None
    }
}

proof fn lemma_member_named_push(
    members: Seq<Member>,
    called: Seq<char>,
    value: Option<Json>,
    name: Seq<char>,
)
    ensures
        member_named(members + member_if(called, value), name) == or_else(
            member_named(members, name),
            value_if(called, value, name),
        ),
{
    lemma_member_named_add(members, member_if(called, value), name);
    lemma_member_named_if(called, value, name);
}

/// What a node's object has to tell under `name`.
pub open spec fn told(node: A11yNode, role: Seq<char>, focused: bool, name: Seq<char>) -> Option<
    Json,
> {
    if name == "role"@ {
        Some(Json::Text(role))
    } else if name == "label"@ {
        text_if(optional(node.label))
    } else if name == "description"@ {
        text_if(optional(node.description))
    } else if name == "shortcut"@ {
        text_if(optional(node.shortcut))
    } else if name == "expanded"@ {
        bool_if(node.expanded)
    } else if name == "selected"@ {
        bool_if(node.selected)
    } else if name == "toggled"@ {
        toggled_if(node.toggled)
    } else if name == "bounds"@ {
        bounds_if(node.bounds)
    } else if name == "focused"@ {
        focused_if(focused)
    } else if name == "actions"@ {
        texts_if(supported_names(node.actions@, action_numbers()))
    } else if name == "children"@ {
        texts_if(child_ids(node.children@))
    } else {
        None
    }
}

/// The length of a name and its first two characters.
spec fn outline(name: Seq<char>) -> (nat, char, char) {
    (name.len(), name[0], name[1])
}

/// The names of a node's members are all different: no two have the same outline.
proof fn lemma_names_differ()
    ensures
        outline("role"@) == (4nat, 'r', 'o'),
        outline("label"@) == (5nat, 'l', 'a'),
        outline("description"@) == (11nat, 'd', 'e'),
        outline("shortcut"@) == (8nat, 's', 'h'),
        outline("expanded"@) == (8nat, 'e', 'x'),
        outline("selected"@) == (8nat, 's', 'e'),
        outline("toggled"@) == (7nat, 't', 'o'),
        outline("bounds"@) == (6nat, 'b', 'o'),
        outline("focused"@) == (7nat, 'f', 'o'),
        outline("actions"@) == (7nat, 'a', 'c'),
        outline("children"@) == (8nat, 'c', 'h'),
{
    reveal_strlit("role");
    reveal_strlit("label");
    reveal_strlit("description");
    reveal_strlit("shortcut");
    reveal_strlit("expanded");
    reveal_strlit("selected");
    reveal_strlit("toggled");
    reveal_strlit("bounds");
    reveal_strlit("focused");
    reveal_strlit("actions");
    reveal_strlit("children");
}

/// The page finds everything about a node in the node's object, under its name, and finds nothing
/// where there is nothing to tell.
pub proof fn law_node_object_tells_everything(
    node: A11yNode,
    role: Seq<char>,
    focused: bool,
    name: Seq<char>,
)
    ensures
        member_named(node_members(node, role, focused), name) == told(node, role, focused, name),
{
    lemma_names_differ();
    let m1 = member_if("label"@, text_if(optional(node.label)));
    lemma_member_named_if("label"@, text_if(optional(node.label)), name);
    let m2 = m1 + member_if("description"@, text_if(optional(node.description)));
    lemma_member_named_push(m1, "description"@, text_if(optional(node.description)), name);
    let m3 = m2 + member_if("shortcut"@, text_if(optional(node.shortcut)));
    lemma_member_named_push(m2, "shortcut"@, text_if(optional(node.shortcut)), name);
    let m4 = m3 + member_if("expanded"@, bool_if(node.expanded));
    lemma_member_named_push(m3, "expanded"@, bool_if(node.expanded), name);
    let m5 = m4 + member_if("selected"@, bool_if(node.selected));
    lemma_member_named_push(m4, "selected"@, bool_if(node.selected), name);
    let m6 = m5 + member_if("toggled"@, toggled_if(node.toggled));
    lemma_member_named_push(m5, "toggled"@, toggled_if(node.toggled), name);
    let m7 = m6 + member_if("bounds"@, bounds_if(node.bounds));
    lemma_member_named_push(m6, "bounds"@, bounds_if(node.bounds), name);
    let m8 = m7 + member_if("focused"@, focused_if(focused));
    lemma_member_named_push(m7, "focused"@, focused_if(focused), name);
    let m9 = m8 + member_if(
        "actions"@,
        texts_if(supported_names(node.actions@, action_numbers())),
    );
    lemma_member_named_push(
        m8,
        "actions"@,
        texts_if(supported_names(node.actions@, action_numbers())),
        name,
    );
    let m10 = m9 + member_if("children"@, texts_if(child_ids(node.children@)));
    lemma_member_named_push(m9, "children"@, texts_if(child_ids(node.children@)), name);
    let first = member_if("role"@, Some(Json::Text(role)));
    lemma_member_named_if("role"@, Some(Json::Text(role)), name);
    lemma_member_named_add(first, m10, name);
}

/// Whether the corners of a node's bounds can be told apart in JSON, as numbers can.
pub open spec fn bounds_are_words(node: A11yNode) -> bool {
    match node.bounds {
        Some(bounds) => is_word(bounds.x0@) && is_word(bounds.y0@) && is_word(bounds.x1@)
            && is_word(bounds.y1@),
        None => true,
    }
}

/// Whether the page is told the same of two nodes.
pub open spec fn told_alike(a: A11yNode, b: A11yNode) -> bool {
    &&& a.id == b.id
    &&& optional(a.label) == optional(b.label)
    &&& optional(a.description) == optional(b.description)
    &&& optional(a.shortcut) == optional(b.shortcut)
    &&& a.expanded == b.expanded
    &&& a.selected == b.selected
    &&& a.toggled == b.toggled
    &&& a.bounds is Some <==> b.bounds is Some
    &&& a.bounds is Some ==> {
        &&& a.bounds->0.x0@ == b.bounds->0.x0@
        &&& a.bounds->0.y0@ == b.bounds->0.y0@
        &&& a.bounds->0.x1@ == b.bounds->0.x1@
        &&& a.bounds->0.y1@ == b.bounds->0.y1@
    }
    &&& supported_names(a.actions@, action_numbers()) == supported_names(
        b.actions@,
        action_numbers(),
    )
    &&& a.children@ == b.children@
}

proof fn lemma_texts_are_well_formed(texts: Seq<Seq<char>>)
    ensures
        texts_if(texts) is Some ==> well_formed(texts_if(texts)->0),
{
    if texts.len() > 0 {
        let items = texts_if(texts)->0->Array_0;
        assert forall|i: int| 0 <= i < items.len() implies well_formed(#[trigger] items[i]) by {
            assert(items[i] == Json::Text(texts[i]));
        }
    }
}

proof fn lemma_bounds_are_well_formed(node: A11yNode)
    requires
        bounds_are_words(node),
        node.bounds is Some,
    ensures
        well_formed(bounds_if(node.bounds)->0),
{
    let items = bounds_if(node.bounds)->0->Array_0;
    assert forall|i: int| 0 <= i < items.len() implies well_formed(#[trigger] items[i]) by {
        assert(i == 0 || i == 1 || i == 2 || i == 3);
    }
}

/// Whether every value in a list of members is well formed.
spec fn all_well_formed(members: Seq<Member>) -> bool {
    forall|i: int| 0 <= i < members.len() ==> well_formed((#[trigger] members[i]).value)
}

proof fn lemma_all_well_formed_push(members: Seq<Member>, called: Seq<char>, value: Option<Json>)
    requires
        all_well_formed(members),
        value is Some ==> well_formed(value->0),
    ensures
        all_well_formed(members + member_if(called, value)),
{
    let more = members + member_if(called, value);
    assert forall|i: int| 0 <= i < more.len() implies well_formed((#[trigger] more[i]).value) by {
        if i < members.len() {
            assert(more[i] == members[i]);
        }
    }
}

proof fn lemma_details_are_well_formed(node: A11yNode, role: Seq<char>, focused: bool)
    requires
        bounds_are_words(node),
    ensures
        well_formed(node_value(node, role, focused)),
{
    reveal_strlit("true");
    reveal_strlit("false");
    let members = node_members(node, role, focused);
    assert(is_word("true"@));
    assert(is_word("false"@));
    let actions = texts_if(supported_names(node.actions@, action_numbers()));
    lemma_texts_are_well_formed(supported_names(node.actions@, action_numbers()));
    lemma_texts_are_well_formed(child_ids(node.children@));
    if node.bounds is Some {
        lemma_bounds_are_well_formed(node);
    }
    lemma_all_well_formed_push(Seq::empty(), "label"@, text_if(optional(node.label)));
    let m1 = member_if("label"@, text_if(optional(node.label)));
    assert(Seq::empty() + m1 =~= m1);
    let m2 = m1 + member_if("description"@, text_if(optional(node.description)));
    lemma_all_well_formed_push(m1, "description"@, text_if(optional(node.description)));
    let m3 = m2 + member_if("shortcut"@, text_if(optional(node.shortcut)));
    lemma_all_well_formed_push(m2, "shortcut"@, text_if(optional(node.shortcut)));
    let m4 = m3 + member_if("expanded"@, bool_if(node.expanded));
    lemma_all_well_formed_push(m3, "expanded"@, bool_if(node.expanded));
    let m5 = m4 + member_if("selected"@, bool_if(node.selected));
    lemma_all_well_formed_push(m4, "selected"@, bool_if(node.selected));
    let m6 = m5 + member_if("toggled"@, toggled_if(node.toggled));
    lemma_all_well_formed_push(m5, "toggled"@, toggled_if(node.toggled));
    let m7 = m6 + member_if("bounds"@, bounds_if(node.bounds));
    lemma_all_well_formed_push(m6, "bounds"@, bounds_if(node.bounds));
    let m8 = m7 + member_if("focused"@, focused_if(focused));
    lemma_all_well_formed_push(m7, "focused"@, focused_if(focused));
    let m9 = m8 + member_if("actions"@, actions);
    lemma_all_well_formed_push(m8, "actions"@, actions);
    let m10 = m9 + member_if("children"@, texts_if(child_ids(node.children@)));
    lemma_all_well_formed_push(m9, "children"@, texts_if(child_ids(node.children@)));
    assert forall|i: int| 0 <= i < members.len() implies well_formed(
        (#[trigger] members[i]).value,
    ) by {
        if i > 0 {
            assert(members[i] == m10[i - 1]);
        }
    }
    assert(well_formed(Json::Object(members)));
    let items = node_value(node, role, focused)->Array_0;
    assert(well_formed(items[0]) && well_formed(items[1]));
}

/// Equal objects tell the same under every name.
proof fn lemma_told_alike(
    a: A11yNode,
    b: A11yNode,
    role_a: Seq<char>,
    role_b: Seq<char>,
    focused_a: bool,
    focused_b: bool,
)
    requires
        node_members(a, role_a, focused_a) == node_members(b, role_b, focused_b),
    ensures
        forall|name: Seq<char>| #[trigger]
            told(a, role_a, focused_a, name) == told(b, role_b, focused_b, name),
{
    assert forall|name: Seq<char>| #[trigger]
        told(a, role_a, focused_a, name) == told(b, role_b, focused_b, name) by {
        law_node_object_tells_everything(a, role_a, focused_a, name);
        law_node_object_tells_everything(b, role_b, focused_b, name);
    }
}

proof fn lemma_nodes_told_alike(
    a: A11yNode,
    b: A11yNode,
    role_a: Seq<char>,
    role_b: Seq<char>,
    focused_a: bool,
    focused_b: bool,
)
    requires
        node_value(a, role_a, focused_a) == node_value(b, role_b, focused_b),
    ensures
        told_alike(a, b),
        role_a == role_b,
        focused_a == focused_b,
{
    let items_a = node_value(a, role_a, focused_a)->Array_0;
    let items_b = node_value(b, role_b, focused_b)->Array_0;
    assert(items_a[0] == items_b[0] && items_a[1] == items_b[1]);
    crate::text::law_decimal_injective(a.id as nat, b.id as nat);
    lemma_names_differ();
    lemma_told_alike(a, b, role_a, role_b, focused_a, focused_b);
    assert(told(a, role_a, focused_a, "role"@) == told(b, role_b, focused_b, "role"@));
    assert(told(a, role_a, focused_a, "label"@) == told(b, role_b, focused_b, "label"@));
    assert(told(a, role_a, focused_a, "description"@) == told(
        b,
        role_b,
        focused_b,
        "description"@,
    ));
    assert(told(a, role_a, focused_a, "shortcut"@) == told(b, role_b, focused_b, "shortcut"@));
    assert(told(a, role_a, focused_a, "expanded"@) == told(b, role_b, focused_b, "expanded"@));
    assert(told(a, role_a, focused_a, "selected"@) == told(b, role_b, focused_b, "selected"@));
    assert(told(a, role_a, focused_a, "toggled"@) == told(b, role_b, focused_b, "toggled"@));
    assert(told(a, role_a, focused_a, "bounds"@) == told(b, role_b, focused_b, "bounds"@));
    assert(told(a, role_a, focused_a, "focused"@) == told(b, role_b, focused_b, "focused"@));
    assert(told(a, role_a, focused_a, "actions"@) == told(b, role_b, focused_b, "actions"@));
    assert(told(a, role_a, focused_a, "children"@) == told(b, role_b, focused_b, "children"@));
    reveal_strlit("true");
    reveal_strlit("false");
    reveal_strlit("mixed");
    assert("true"@.len() != "false"@.len());
    assert("mixed"@[0] != "false"@[0]);
    lemma_texts_told(
        supported_names(a.actions@, action_numbers()),
        supported_names(b.actions@, action_numbers()),
    );
    lemma_texts_told(child_ids(a.children@), child_ids(b.children@));
    assert forall|i: int| 0 <= i < a.children@.len() implies a.children@[i] == b.children@[i] by {
        assert(child_ids(a.children@)[i] == child_ids(b.children@)[i]);
        crate::text::law_decimal_injective(a.children@[i] as nat, b.children@[i] as nat);
    }
    assert(child_ids(a.children@).len() == child_ids(b.children@).len());
    assert(a.children@ =~= b.children@);
    lemma_bounds_told(a, b);
}

proof fn lemma_bounds_told(a: A11yNode, b: A11yNode)
    requires
        bounds_if(a.bounds) == bounds_if(b.bounds),
    ensures
        a.bounds is Some <==> b.bounds is Some,
        a.bounds is Some ==> {
            &&& a.bounds->0.x0@ == b.bounds->0.x0@
            &&& a.bounds->0.y0@ == b.bounds->0.y0@
            &&& a.bounds->0.x1@ == b.bounds->0.x1@
            &&& a.bounds->0.y1@ == b.bounds->0.y1@
        },
{
    if a.bounds is Some {
        let x = bounds_if(a.bounds)->0->Array_0;
        let y = bounds_if(b.bounds)->0->Array_0;
        assert(x[0] == y[0] && x[1] == y[1] && x[2] == y[2] && x[3] == y[3]);
    }
}

proof fn lemma_texts_told(a: Seq<Seq<char>>, b: Seq<Seq<char>>)
    requires
        texts_if(a) == texts_if(b),
    ensures
        a == b,
{
    if a.len() > 0 {
        let x = texts_if(a)->0->Array_0;
        let y = texts_if(b)->0->Array_0;
        assert(x.len() == y.len());
        assert forall|i: int| 0 <= i < a.len() implies a[i] == b[i] by {
            assert(x[i] == y[i]);
        }
    }
    assert(a =~= b);
}

proof fn lemma_tree_is_well_formed(nodes: Seq<A11yNode>, roles: Seq<Seq<char>>, focus: u64)
    requires
        forall|j: int| 0 <= j < nodes.len() ==> bounds_are_words(#[trigger] nodes[j]),
    ensures
        well_formed(tree_value(nodes, roles, focus)),
{
    let items = tree_value(nodes, roles, focus)->Array_0;
    assert forall|j: int| 0 <= j < items.len() implies well_formed(#[trigger] items[j]) by {
        lemma_details_are_well_formed(nodes[j], roles[j], nodes[j].id == focus);
    }
}

/// The page reads the tree from the text it is sent.
pub proof fn law_page_reads_the_tree(nodes: Seq<A11yNode>, roles: Seq<Seq<char>>, focus: u64)
    requires
        forall|j: int| 0 <= j < nodes.len() ==> bounds_are_words(#[trigger] nodes[j]),
    ensures
        read_value(render(tree_value(nodes, roles, focus))) == Some(
            (tree_value(nodes, roles, focus), Seq::<char>::empty()),
        ),
{
    lemma_tree_is_well_formed(nodes, roles, focus);
    law_value_reads_back(tree_value(nodes, roles, focus));
}

/// The page takes no tree for another: trees written alike are alike in everything the page is
/// told, node by node.
pub proof fn law_trees_are_told_apart(
    a: Seq<A11yNode>,
    b: Seq<A11yNode>,
    roles_a: Seq<Seq<char>>,
    roles_b: Seq<Seq<char>>,
    focus_a: u64,
    focus_b: u64,
    i: int,
)
    requires
        render(tree_value(a, roles_a, focus_a)) == render(tree_value(b, roles_b, focus_b)),
        forall|j: int| 0 <= j < a.len() ==> bounds_are_words(#[trigger] a[j]),
        forall|j: int| 0 <= j < b.len() ==> bounds_are_words(#[trigger] b[j]),
        0 <= i < a.len(),
    ensures
        a.len() == b.len(),
        told_alike(a[i], b[i]),
        roles_a[i] == roles_b[i],
        a[i].id == focus_a <==> b[i].id == focus_b,
{
    let x = tree_value(a, roles_a, focus_a)->Array_0;
    let y = tree_value(b, roles_b, focus_b)->Array_0;
    lemma_tree_is_well_formed(a, roles_a, focus_a);
    lemma_tree_is_well_formed(b, roles_b, focus_b);
    law_json_is_told_apart(tree_value(a, roles_a, focus_a), tree_value(b, roles_b, focus_b));
    assert(x[i] == y[i]);
    lemma_nodes_told_alike(
        a[i],
        b[i],
        roles_a[i],
        roles_b[i],
        a[i].id == focus_a,
        b[i].id == focus_b,
    );
}

/// The page finds in a node's object its role, and what there is of its label, description and
/// shortcut, as texts; whether it is expanded and selected, as words; and its state as one of three
/// texts. What the node lacks is not there.
pub proof fn law_page_is_told_what_a_node_says(node: A11yNode, role: Seq<char>, focused: bool)
    ensures
        ({
            let members = node_members(node, role, focused);
            &&& member_named(members, "role"@) == Some(Json::Text(role))
            &&& node.label is Some ==> member_named(members, "label"@) == Some(
                Json::Text(node.label->0@),
            )
            &&& node.label is None ==> member_named(members, "label"@) is None
            &&& node.description is Some ==> member_named(members, "description"@) == Some(
                Json::Text(node.description->0@),
            )
            &&& node.description is None ==> member_named(members, "description"@) is None
            &&& node.shortcut is Some ==> member_named(members, "shortcut"@) == Some(
                Json::Text(node.shortcut->0@),
            )
            &&& node.shortcut is None ==> member_named(members, "shortcut"@) is None
            &&& node.expanded == Some(true) ==> member_named(members, "expanded"@) == Some(
                Json::Word("true"@),
            )
            &&& node.expanded == Some(false) ==> member_named(members, "expanded"@) == Some(
                Json::Word("false"@),
            )
            &&& node.expanded is None ==> member_named(members, "expanded"@) is None
            &&& node.selected == Some(true) ==> member_named(members, "selected"@) == Some(
                Json::Word("true"@),
            )
            &&& node.selected == Some(false) ==> member_named(members, "selected"@) == Some(
                Json::Word("false"@),
            )
            &&& node.selected is None ==> member_named(members, "selected"@) is None
            &&& node.toggled == Some(Toggled::True) ==> member_named(members, "toggled"@) == Some(
                Json::Text("true"@),
            )
            &&& node.toggled == Some(Toggled::False) ==> member_named(members, "toggled"@) == Some(
                Json::Text("false"@),
            )
            &&& node.toggled == Some(Toggled::Mixed) ==> member_named(members, "toggled"@) == Some(
                Json::Text("mixed"@),
            )
            &&& node.toggled is None ==> member_named(members, "toggled"@) is None
        }),
{
    lemma_names_differ();
    law_node_object_tells_everything(node, role, focused, "role"@);
    law_node_object_tells_everything(node, role, focused, "label"@);
    law_node_object_tells_everything(node, role, focused, "description"@);
    law_node_object_tells_everything(node, role, focused, "shortcut"@);
    law_node_object_tells_everything(node, role, focused, "expanded"@);
    law_node_object_tells_everything(node, role, focused, "selected"@);
    law_node_object_tells_everything(node, role, focused, "toggled"@);
}

/// The page finds in a node's object the corners of its bounds as four words, left, top, right and
/// bottom; that it is focused, exactly when it is; the names of the actions it supports; and the ids
/// of its children, in their order. What the node lacks is not there.
pub proof fn law_page_is_told_what_a_node_has(node: A11yNode, role: Seq<char>, focused: bool)
    ensures
        ({
            let members = node_members(node, role, focused);
            let names = supported_names(node.actions@, action_numbers());
            &&& node.bounds is Some ==> member_named(members, "bounds"@) == Some(
                Json::Array(
                    seq![
                        Json::Word(node.bounds->0.x0@),
                        Json::Word(node.bounds->0.y0@),
                        Json::Word(node.bounds->0.x1@),
                        Json::Word(node.bounds->0.y1@),
                    ],
                ),
            )
            &&& node.bounds is None ==> member_named(members, "bounds"@) is None
            &&& focused ==> member_named(members, "focused"@) == Some(Json::Word("true"@))
            &&& !focused ==> member_named(members, "focused"@) is None
            &&& names.len() == 0 ==> member_named(members, "actions"@) is None
            &&& names.len() > 0 ==> {
                let told = member_named(members, "actions"@);
                &&& told matches Some(Json::Array(items))
                &&& items.len() == names.len()
                &&& forall|i: int| 0 <= i < names.len() ==> #[trigger] items[i] == Json::Text(
                    names[i],
                )
            }
            &&& node.children@.len() == 0 ==> member_named(members, "children"@) is None
            &&& node.children@.len() > 0 ==> {
                let told = member_named(members, "children"@);
                &&& told matches Some(Json::Array(items))
                &&& items.len() == node.children@.len()
                &&& forall|i: int|
                    0 <= i < items.len() ==> #[trigger] items[i] == Json::Text(
                        decimal(node.children@[i] as nat),
                    )
            }
        }),
{
    lemma_names_differ();
    law_node_object_tells_everything(node, role, focused, "bounds"@);
    law_node_object_tells_everything(node, role, focused, "focused"@);
    law_node_object_tells_everything(node, role, focused, "actions"@);
    law_node_object_tells_everything(node, role, focused, "children"@);
}

/// The members of a node that has everything come in this order.
pub proof fn law_members_come_in_order(node: A11yNode, role: Seq<char>)
    requires
        node.label is Some,
        node.description is Some,
        node.shortcut is Some,
        node.expanded is Some,
        node.selected is Some,
        node.toggled is Some,
        node.bounds is Some,
        supported_names(node.actions@, action_numbers()).len() > 0,
        node.children@.len() > 0,
    ensures
        ({
            let members = node_members(node, role, true);
            &&& members.len() == 11
            &&& members[0].name == "role"@
            &&& members[1].name == "label"@
            &&& members[2].name == "description"@
            &&& members[3].name == "shortcut"@
            &&& members[4].name == "expanded"@
            &&& members[5].name == "selected"@
            &&& members[6].name == "toggled"@
            &&& members[7].name == "bounds"@
            &&& members[8].name == "focused"@
            &&& members[9].name == "actions"@
            &&& members[10].name == "children"@
        }),
{
}

/// A name stands for the value of the first member that has it, and for nothing where none has.
pub proof fn law_name_finds_its_first_member(members: Seq<Member>, name: Seq<char>, i: int)
    requires
        0 <= i <= members.len(),
        forall|j: int| 0 <= j < i ==> (#[trigger] members[j]).name != name,
        i < members.len() ==> members[i].name == name,
    ensures
        i < members.len() ==> member_named(members, name) == Some(members[i].value),
        i == members.len() ==> member_named(members, name) is None,
    decreases i,
{
    if i > 0 {
        let rest = members.skip(1);
        assert(members[0].name != name);
        assert forall|j: int| 0 <= j < i - 1 implies (#[trigger] rest[j]).name != name by {
            assert(rest[j] == members[j + 1]);
        }
        law_name_finds_its_first_member(rest, name, i - 1);
    }
}

/// The page gets a node as a pair of its id, written in decimal, and its object; and the tree as its
/// nodes, each under its own role, in their order, with the one that has the focus marked and no
/// other.
pub proof fn law_tree_lists_its_nodes_in_order(
    nodes: Seq<A11yNode>,
    roles: Seq<Seq<char>>,
    focus: u64,
    i: int,
)
    requires
        0 <= i < nodes.len(),
    ensures
        tree_value(nodes, roles, focus) is Array,
        tree_value(nodes, roles, focus)->Array_0.len() == nodes.len(),
        ({
            let pair = tree_value(nodes, roles, focus)->Array_0[i];
            &&& pair is Array
            &&& pair->Array_0.len() == 2
            &&& pair->Array_0[0] == Json::Text(decimal(nodes[i].id as nat))
            &&& pair->Array_0[1] is Object
            &&& member_named(pair->Array_0[1]->Object_0, "role"@) == Some(Json::Text(roles[i]))
            &&& nodes[i].id == focus ==> pair->Array_0[1]->Object_0 == node_members(
                nodes[i],
                roles[i],
                true,
            )
            &&& nodes[i].id != focus ==> pair->Array_0[1]->Object_0 == node_members(
                nodes[i],
                roles[i],
                false,
            )
        }),
{
    law_page_is_told_what_a_node_says(nodes[i], roles[i], nodes[i].id == focus);
}

/// The actions are numbered from zero, all twenty-two of them, and are listed in the order of their
/// numbers: those of a node are its supported ones, each once.
pub proof fn law_actions_are_listed_in_order(actions: Seq<u8>, numbers: Seq<u8>, further: u8)
    ensures
        action_numbers().len() == 22,
        forall|i: int| 0 <= i < 22 ==> #[trigger] action_numbers()[i] == i,
        supported_names(actions, Seq::empty()) == Seq::<Seq<char>>::empty(),
        actions.contains(further) ==> supported_names(actions, numbers.push(further))
            == supported_names(actions, numbers).push(named_action(further as int)->0),
        !actions.contains(further) ==> supported_names(actions, numbers.push(further))
            == supported_names(actions, numbers),
{
    assert(numbers.push(further).drop_last() =~= numbers);
}

/// An action is called by its own name, and a name that no action has calls none.
pub proof fn law_only_names_call_actions(name: Seq<char>)
    ensures
        match action_called(name) {
            Some(n) => named_action(n as int) == Some(name),
            None => forall|n: u8| #[trigger] named_action(n as int) != Some(name),
        },
{
}

/// The page's request is for the node its id spells and the action its name calls; without either
/// there is none.
pub proof fn law_request_needs_a_node_and_an_action(id: Seq<char>, action: Seq<char>)
    ensures
        requested(id, action) is Some <==> parsed_u64(id) is Some && action_called(action) is Some,
        requested(id, action) is Some ==> requested(id, action)->0.node == parsed_u64(id)->0
            && requested(id, action)->0.action == action_called(action)->0,
{
}

/// The tree can be told exactly when every node's role has a name, and each node is told under the
/// name of its own role.
pub proof fn law_nodes_go_by_the_names_of_their_roles(nodes: Seq<A11yNode>, i: int)
    requires
        0 <= i < nodes.len(),
    ensures
        accesskit_role_name(nodes[i].role) is None ==> !roles_are_known(nodes),
        (forall|j: int|
            0 <= j < nodes.len() ==> accesskit_role_name((#[trigger] nodes[j]).role) is Some)
            ==> roles_are_known(nodes),
        role_names(nodes).len() == nodes.len(),
        accesskit_role_name(nodes[i].role) is Some ==> accesskit_role_name(nodes[i].role) == Some(
            role_names(nodes)[i],
        ),
{
}

} // verus!
