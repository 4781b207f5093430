use session_auth::{HasPermission, Rights, Step};
use std::cell::RefCell;

/// An actor that holds the listed permissions and records what it is asked.
struct Actor {
    held: Vec<&'static str>,
    asked: RefCell<Vec<String>>,
}

impl Actor {
    fn holding(held: &[&'static str]) -> Actor {
        Actor { held: held.to_vec(), asked: RefCell::new(Vec::new()) }
    }

    fn asked(&self) -> Vec<String> {
        self.asked.borrow().clone()
    }
}

impl HasPermission for Actor {
    fn has(&self, perm: &String) -> bool {
        self.asked.borrow_mut().push(perm.clone());
        self.held.iter().any(|name| name == perm)
    }
}

fn perm(name: &str) -> Rights {
    Rights::Permission(name.to_string())
}

fn show(rights: &Rights) -> String {
    fn list(children: &[Rights]) -> String {
        children.iter().map(show).collect::<Vec<String>>().join(",")
    }
    match rights {
        Rights::All(children) => format!("all({})", list(children)),
        Rights::Any(children) => format!("any({})", list(children)),
        Rights::NoneOf(children) => format!("none({})", list(children)),
        Rights::Permission(name) => format!("'{}'", name),
        Rights::Never => "never".to_string(),
    }
}

/// Drives `step` with the answers of `actor` and returns the decision.
fn drive(rights: &Rights, actor: &Actor) -> bool {
    let mut answers: Vec<bool> = Vec::new();
    loop {
        match rights.step(&answers) {
            Step::Ask(name) => answers.push(actor.has(&name.to_string())),
            Step::Done(granted) => return granted,
        }
    }
}

#[test]
fn all_of_nothing_is_granted() {
    let actor = Actor::holding(&[]);
    assert!(Rights::all(&[]).evaluate(&actor));
    assert!(Rights::All(Vec::new()).evaluate(&actor));
    assert!(matches!(Rights::all(&[]).step(&[]), Step::Done(true)));
    assert!(actor.asked().is_empty());
}

#[test]
fn any_of_nothing_is_refused() {
    let actor = Actor::holding(&["a"]);
    assert!(!Rights::any(&[]).evaluate(&actor));
    assert!(!Rights::Any(Vec::new()).evaluate(&actor));
    assert!(matches!(Rights::any(&[]).step(&[]), Step::Done(false)));
    assert!(actor.asked().is_empty());
}

#[test]
fn none_of_nothing_is_refused() {
    let actor = Actor::holding(&[]);
    assert!(!Rights::none(&[]).evaluate(&actor));
    assert!(matches!(Rights::none(&[]).step(&[]), Step::Done(false)));
}

#[test]
fn never_is_refused_without_asking() {
    let actor = Actor::holding(&["a"]);
    assert!(!Rights::Never.evaluate(&actor));
    assert!(matches!(Rights::Never.step(&[true, true]), Step::Done(false)));
    assert!(actor.asked().is_empty());
}

#[test]
fn all_stops_at_the_first_refusal() {
    let actor = Actor::holding(&["a", "c"]);
    let rights = Rights::all(&[perm("a"), perm("b"), perm("c")]);
    assert!(!rights.evaluate(&actor));
    assert_eq!(actor.asked(), vec!["a".to_string(), "b".to_string()]);
}

#[test]
fn all_asks_every_child_when_all_hold() {
    let actor = Actor::holding(&["a", "b", "c"]);
    let rights = Rights::all(&[perm("a"), perm("b"), perm("c")]);
    assert!(rights.evaluate(&actor));
    assert_eq!(actor.asked(), vec!["a".to_string(), "b".to_string(), "c".to_string()]);
}

#[test]
fn any_stops_at_the_first_grant() {
    let actor = Actor::holding(&["b"]);
    let rights = Rights::any(&[perm("a"), perm("b"), perm("c")]);
    assert!(rights.evaluate(&actor));
    assert_eq!(actor.asked(), vec!["a".to_string(), "b".to_string()]);
}

#[test]
fn any_asks_every_child_when_none_holds() {
    let actor = Actor::holding(&[]);
    let rights = Rights::any(&[perm("a"), perm("b")]);
    assert!(!rights.evaluate(&actor));
    assert_eq!(actor.asked(), vec!["a".to_string(), "b".to_string()]);
}

#[test]
fn a_child_that_never_holds_stops_all_before_any_question() {
    let actor = Actor::holding(&["a"]);
    let rights = Rights::all(&[Rights::Never, perm("a")]);
    assert!(!rights.evaluate(&actor));
    assert!(actor.asked().is_empty());
}

#[test]
fn none_of_is_the_negation_of_all() {
    let one_each = Actor::holding(&["yes"]);
    assert!(Rights::none(&[perm("yes"), perm("no")]).evaluate(&one_each));
    assert!(!Rights::all(&[perm("yes"), perm("no")]).evaluate(&one_each));
    assert!(Rights::any(&[perm("yes"), perm("no")]).evaluate(&one_each));

    let both = Actor::holding(&["yes", "no"]);
    assert!(!Rights::none(&[perm("yes"), perm("no")]).evaluate(&both));

    let neither = Actor::holding(&[]);
    assert!(Rights::none(&[perm("yes"), perm("no")]).evaluate(&neither));
}

#[test]
fn none_of_stops_where_all_stops() {
    let actor = Actor::holding(&["a"]);
    let rights = Rights::none(&[perm("a"), perm("b"), perm("c")]);
    assert!(rights.evaluate(&actor));
    assert_eq!(actor.asked(), vec!["a".to_string(), "b".to_string()]);
}

#[test]
fn a_permission_is_the_answer_of_the_actor() {
    for name in ["read", "", "r\u{e9}sum\u{e9}", "\u{6a29}\u{9650}", "a b", "READ"] {
        let holder = Actor::holding(&["read", "", "r\u{e9}sum\u{e9}", "\u{6a29}\u{9650}"]);
        let expected = holder.has(&name.to_string());
        assert_eq!(perm(name).evaluate(&holder), expected);
        assert_eq!(holder.asked(), vec![name.to_string(), name.to_string()]);
        let nobody = Actor::holding(&[]);
        assert!(!perm(name).evaluate(&nobody));
    }
    let holder = Actor::holding(&["read"]);
    assert!(perm("read").evaluate(&holder));
    assert!(!perm("READ").evaluate(&holder));
    assert!(!perm("read ").evaluate(&holder));
}

#[test]
fn step_asks_for_a_permission_and_takes_the_answer() {
    let rights = perm("edit");
    match rights.step(&[]) {
        Step::Ask(name) => assert_eq!(name, "edit"),
        Step::Done(_) => panic!("decided without an answer"),
    }
    assert!(matches!(rights.step(&[true]), Step::Done(true)));
    assert!(matches!(rights.step(&[false]), Step::Done(false)));
}

#[test]
fn step_walks_a_tree_in_order() {
    let rights = Rights::all(&[
        perm("a"),
        Rights::any(&[perm("b"), perm("c")]),
        Rights::none(&[perm("d")]),
    ]);
    let ask = |answers: &[bool]| match rights.step(answers) {
        Step::Ask(name) => name.to_string(),
        Step::Done(granted) => format!("done: {}", granted),
    };
    assert_eq!(ask(&[]), "a");
    assert_eq!(ask(&[false]), "done: false");
    assert_eq!(ask(&[true]), "b");
    assert_eq!(ask(&[true, true]), "d");
    assert_eq!(ask(&[true, false]), "c");
    assert_eq!(ask(&[true, false, false]), "done: false");
    assert_eq!(ask(&[true, false, true]), "d");
    assert_eq!(ask(&[true, false, true, false]), "done: true");
    assert_eq!(ask(&[true, false, true, true]), "done: false");
    assert_eq!(ask(&[true, true, false]), "done: true");
}

#[test]
fn step_does_not_look_at_answers_beyond_the_decision() {
    let rights = Rights::any(&[perm("a"), perm("b")]);
    assert!(matches!(rights.step(&[true]), Step::Done(true)));
    assert!(matches!(rights.step(&[true, false]), Step::Done(true)));
    assert!(matches!(rights.step(&[true, false, false, true]), Step::Done(true)));
}

#[test]
fn driving_step_agrees_with_evaluate() {
    let trees = [
        Rights::all(&[perm("a"), Rights::any(&[perm("b"), perm("c")]), Rights::none(&[perm("a")])]),
        Rights::any(&[Rights::all(&[perm("a"), perm("b")]), Rights::none(&[perm("c"), perm("a")])]),
        Rights::none(&[Rights::any(&[]), perm("a")]),
        Rights::all(&[Rights::all(&[]), Rights::none(&[Rights::Never]), perm("c")]),
    ];
    let names = ["a", "b", "c"];
    for tree in trees.iter() {
        for mask in 0..8 {
            let held: Vec<&'static str> =
                (0..3).filter(|bit| mask & (1 << bit) != 0).map(|bit| names[bit]).collect();
            let direct = Actor::holding(&held);
            let driven = Actor::holding(&held);
            assert_eq!(tree.evaluate(&direct), drive(tree, &driven), "{} {:?}", show(tree), held);
            assert_eq!(direct.asked(), driven.asked(), "{} {:?}", show(tree), held);
        }
    }
}

#[test]
fn evaluate_gives_the_boolean_value() {
    let tree = Rights::all(&[
        perm("a"),
        Rights::any(&[perm("b"), perm("c")]),
        Rights::none(&[perm("a"), perm("c")]),
    ]);
    // a && (b || c) && !(a && c)
    for mask in 0..8 {
        let (a, b, c) = (mask & 1 != 0, mask & 2 != 0, mask & 4 != 0);
        let mut held = Vec::new();
        if a {
            held.push("a");
        }
        if b {
            held.push("b");
        }
        if c {
            held.push("c");
        }
        let actor = Actor::holding(&held);
        assert_eq!(tree.evaluate(&actor), a && (b || c) && !(a && c));
    }
}

#[test]
fn what_stands_after_the_deciding_child_changes_nothing() {
    let short = Rights::all(&[perm("a"), perm("b")]);
    let long = Rights::all(&[perm("a"), perm("b"), perm("c"), Rights::any(&[perm("d")])]);
    let first = Actor::holding(&["a", "c", "d"]);
    let second = Actor::holding(&["a", "c", "d"]);
    assert_eq!(short.evaluate(&first), long.evaluate(&second));
    assert_eq!(first.asked(), second.asked());
}

#[test]
fn the_builders_copy_their_children_in_order() {
    let children = [perm("a"), Rights::Never, Rights::any(&[perm("b")])];
    assert_eq!(show(&Rights::all(&children)), "all('a',never,any('b'))");
    assert_eq!(show(&Rights::any(&children)), "any('a',never,any('b'))");
    assert_eq!(show(&Rights::none(&children)), "none('a',never,any('b'))");
    assert_eq!(show(&children[2]), "any('b')");
}

#[test]
fn a_clone_is_the_same_tree() {
    let tree = Rights::none(&[
        perm("a"),
        Rights::all(&[perm("b"), Rights::Never]),
        Rights::any(&[]),
        perm(""),
    ]);
    assert_eq!(show(&tree.clone()), show(&tree));
    assert_eq!(show(&tree), "none('a',all('b',never),any(),'')");
}
