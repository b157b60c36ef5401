use gpui_window::a11y::{
    action_from_name, all_actions, dispatch, node_json, nodes_json, supported_action_names,
    A11yNode, ActionRequest, BoundsText, Toggled, TreeUpdate, WebA11y,
};

fn role(role: accesskit::Role) -> u8 {
    role as u8
}

fn action(action: accesskit::Action) -> u8 {
    action as u8
}

fn node(id: u64) -> A11yNode {
    A11yNode {
        id,
        role: role(accesskit::Role::Button),
        label: None,
        description: None,
        shortcut: None,
        expanded: None,
        selected: None,
        toggled: None,
        bounds: None,
        actions: Vec::new(),
        children: Vec::new(),
    }
}

#[test]
fn all_actions_are_those_accesskit_has() {
    let expected: Vec<u8> =
        (0..64).filter_map(accesskit::Action::n).map(|action| action as u8).collect();
    assert_eq!(all_actions(), expected);
    assert_eq!(expected.len(), 22);
}

#[test]
fn every_action_is_found_by_its_name() {
    for number in all_actions() {
        let name = format!("{:?}", accesskit::Action::n(number).unwrap());
        assert_eq!(action_from_name(&name), Some(number));
    }
    assert_eq!(action_from_name("Click"), Some(0));
    assert_eq!(action_from_name("ShowContextMenu"), Some(21));
    assert_eq!(action_from_name("click"), None);
    assert_eq!(action_from_name(""), None);
}

#[test]
fn dispatch_needs_a_number_and_a_known_action() {
    let focus = action(accesskit::Action::Focus);
    assert_eq!(dispatch("42", "Focus"), Some(ActionRequest { node: 42, action: focus }));
    assert_eq!(dispatch("2:42", "Focus"), None);
    assert_eq!(dispatch("-1", "Focus"), None);
    assert_eq!(dispatch("18446744073709551616", "Focus"), None);
    assert_eq!(dispatch("42", "Press"), None);
}

#[test]
fn what_the_page_is_told_leads_back_to_the_node() {
    for id in [0, 1, u64::MAX] {
        for number in all_actions() {
            let name = format!("{:?}", accesskit::Action::n(number).unwrap());
            assert_eq!(
                dispatch(&id.to_string(), &name),
                Some(ActionRequest { node: id, action: number })
            );
        }
    }
}

#[test]
fn a_bare_node() {
    assert_eq!(node_json(&node(3), "Button", false), "[\"3\",{\"role\":\"Button\"}]");
    assert_eq!(
        node_json(&node(3), "Button", true),
        "[\"3\",{\"role\":\"Button\",\"focused\":true}]"
    );
}

#[test]
fn a_node_with_everything() {
    let full = A11yNode {
        label: Some(String::from("Say \"hi\"")),
        description: Some(String::from("two\nlines")),
        shortcut: Some(String::from("Ctrl+S")),
        expanded: Some(true),
        selected: Some(false),
        toggled: Some(Toggled::Mixed),
        bounds: Some(BoundsText {
            x0: 0.5f64.to_string(),
            y0: (-1f64).to_string(),
            x1: 10f64.to_string(),
            y1: 20.25f64.to_string(),
        }),
        actions: vec![action(accesskit::Action::Focus), action(accesskit::Action::Click)],
        children: vec![7, 8],
        ..node(1)
    };
    assert_eq!(
        node_json(&full, "CheckBox", true),
        "[\"1\",{\"role\":\"CheckBox\",\"label\":\"Say \\\"hi\\\"\",\"description\":\"two\\nlines\",\
         \"shortcut\":\"Ctrl+S\",\"expanded\":true,\"selected\":false,\"toggled\":\"mixed\",\
         \"bounds\":[0.5,-1,10,20.25],\"focused\":true,\"actions\":[\"Click\",\"Focus\"],\
         \"children\":[\"7\",\"8\"]}]"
    );
}

#[test]
fn toggled_states() {
    let on = A11yNode { toggled: Some(Toggled::True), ..node(1) };
    let off = A11yNode { toggled: Some(Toggled::False), ..node(1) };
    assert_eq!(
        node_json(&on, "Switch", false),
        "[\"1\",{\"role\":\"Switch\",\"toggled\":\"true\"}]"
    );
    assert_eq!(
        node_json(&off, "Switch", false),
        "[\"1\",{\"role\":\"Switch\",\"toggled\":\"false\"}]"
    );
}

#[test]
fn supported_actions_come_in_the_order_of_all_actions() {
    assert_eq!(supported_action_names(&[]), Vec::<String>::new());
    assert_eq!(supported_action_names(&[21, 0, 2, 0, 60]), vec!["Click", "Blur", "ShowContextMenu"]);
}

#[test]
fn a_tree_of_nodes() {
    assert_eq!(nodes_json(&[], &[], 0), "[]");
    assert_eq!(
        nodes_json(
            &[node(1), node(2)],
            &[String::from("Button"), String::from("Window")],
            2
        ),
        "[[\"1\",{\"role\":\"Button\"}],[\"2\",{\"role\":\"Window\",\"focused\":true}]]"
    );
}

#[test]
fn the_page_gets_roles_by_name() {
    let mut mirror = WebA11y::new();
    assert!(mirror.start(3));
    let window = A11yNode {
        role: role(accesskit::Role::Window),
        children: vec![1],
        ..node(2)
    };
    let update = TreeUpdate { nodes: vec![node(1), window], focus: 1 };
    let sent = mirror.tree_update(&update).unwrap();
    assert_eq!(sent.window, 3);
    assert_eq!(sent.focus, "1");
    assert_eq!(
        sent.nodes_json,
        "[[\"1\",{\"role\":\"Button\",\"focused\":true}],\
         [\"2\",{\"role\":\"Window\",\"children\":[\"1\"]}]]"
    );
}

#[test]
fn every_role_has_its_name() {
    let mut mirror = WebA11y::new();
    mirror.start(1);
    for number in 0..=u8::MAX {
        let update = TreeUpdate { nodes: vec![A11yNode { role: number, ..node(5) }], focus: 0 };
        let expected = accesskit::Role::n(number)
            .map(|role| format!("[[\"5\",{{\"role\":\"{role:?}\"}}]]"));
        assert_eq!(mirror.tree_update(&update).map(|sent| sent.nodes_json), expected);
    }
}

#[test]
fn a_mirror_that_is_off_sends_nothing() {
    let mut mirror = WebA11y::new();
    let update = TreeUpdate { nodes: vec![node(1)], focus: 1 };
    assert!(mirror.tree_update(&update).is_none());
    assert_eq!(mirror.stop(), None);
    assert!(!mirror.start(0));
    assert!(mirror.tree_update(&update).is_none());
    assert_eq!(mirror.stop(), None);
    assert!(mirror.start(2));
    assert_eq!(mirror.stop(), Some(2));
}

#[test]
fn different_trees_are_written_differently() {
    let labelled = |label: &str| A11yNode { label: Some(String::from(label)), ..node(1) };
    let texts = [
        node_json(&labelled("a"), "Button", false),
        node_json(&labelled("b"), "Button", false),
        node_json(&labelled("a"), "Link", false),
        node_json(&labelled("a"), "Button", true),
        node_json(&labelled("a\",\"focused\":true,\"x\":\""), "Button", false),
        node_json(&A11yNode { children: vec![12], ..node(1) }, "Button", false),
        node_json(&A11yNode { children: vec![1, 2], ..node(1) }, "Button", false),
    ];
    for (i, a) in texts.iter().enumerate() {
        for b in &texts[i + 1..] {
            assert_ne!(a, b);
        }
    }
}
