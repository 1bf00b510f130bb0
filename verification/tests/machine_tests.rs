use vasm::machine::{StateMachine, Vasm};
use vasm::model::{ArcDecl, PetriNet, Place, TransitionDecl};

fn place(name: &str, offset: i32, initial: Option<i32>, capacity: Option<i32>) -> Place {
    Place { name: name.to_string(), offset, initial, capacity }
}

fn tdecl(name: &str, role: Option<&str>) -> TransitionDecl {
    TransitionDecl { name: name.to_string(), role: role.map(|r| r.to_string()) }
}

fn arc(
    source: &str,
    target: &str,
    weight: Option<i32>,
    consume: Option<bool>,
    produce: Option<bool>,
    inhibit: Option<bool>,
    read: Option<bool>,
) -> ArcDecl {
    ArcDecl {
        source: source.to_string(),
        target: target.to_string(),
        weight,
        consume,
        produce,
        inhibit,
        read,
    }
}

fn start_stop_model(model_type: &str) -> PetriNet {
    PetriNet {
        model_type: model_type.to_string(),
        places: vec![place("idle", 0, Some(1), Some(1)), place("busy", 1, Some(0), Some(1))],
        transitions: vec![tdecl("start", None)],
        arcs: vec![
            arc("idle", "start", Some(1), Some(true), None, None, None),
            arc("start", "busy", Some(1), None, Some(true), None, None),
        ],
    }
}

#[test]
fn test_default_net() {
    let net = PetriNet {
        model_type: "petriNet".to_string(),
        places: vec![],
        transitions: vec![],
        arcs: vec![],
    };
    let vasm = StateMachine::new(&net);
    let state = vasm.initial_vector();
    assert!(state.len() == 0);
}

#[test]
fn test_concrete_start_stop_scenario() {
    let net = start_stop_model("petriNet");
    let sm = StateMachine::from_model(&net);
    assert_eq!(sm.initial_vector(), vec![1, 0]);

    let tx = sm.transform(&vec![1, 0], "start", 1);
    assert!(tx.ok);
    assert_eq!(tx.output, vec![0, 1]);

    let tx2 = sm.transform(&vec![0, 1], "start", 1);
    assert!(!tx2.ok);
    assert!(tx2.underflow);
}

#[test]
fn test_unbounded_place_never_overflows() {
    let net = PetriNet {
        model_type: "petriNet".to_string(),
        places: vec![place("p0", 0, Some(5), None)],
        transitions: vec![tdecl("t", None)],
        arcs: vec![arc("p0", "t", Some(1), Some(true), None, None, None)],
    };
    let sm = StateMachine::from_model(&net);

    let tx = sm.transform(&vec![5], "t", 100);
    assert!(!tx.overflow);
    assert!(tx.underflow);
    assert!(!tx.ok);
    assert_eq!(tx.output, vec![-95]);

    let tx2 = sm.transform(&vec![5], "t", 5);
    assert!(!tx2.overflow);
    assert!(!tx2.underflow);
    assert!(tx2.ok);
    assert_eq!(tx2.output, vec![0]);
}

#[test]
fn test_initial_vector_unchanged_by_transform() {
    let net = start_stop_model("petriNet");
    let sm = StateMachine::from_model(&net);
    let before = sm.initial_vector();
    let _ = sm.transform(&sm.initial_vector(), "start", 1);
    let _ = sm.transform(&vec![0, 1], "start", 3);
    let after = sm.initial_vector();
    assert_eq!(before, after);
    assert_eq!(sm.empty_vector(), vec![0, 0]);
}

#[test]
fn test_safe_net_capacity_and_initial() {
    for model_type in ["elementary", "workflow"] {
        let net = PetriNet {
            model_type: model_type.to_string(),
            places: vec![place("a", 0, Some(5), Some(7)), place("b", 1, Some(0), None)],
            transitions: vec![tdecl("t", None)],
            arcs: vec![arc("a", "t", Some(1), Some(true), None, None, None)],
        };
        let sm = StateMachine::from_model(&net);
        assert_eq!(sm.capacity, vec![1, 1]);
        assert_eq!(sm.initial, vec![1, 0]);
    }
}

#[test]
fn test_inhibitor_arc_threshold() {
    let net = PetriNet {
        model_type: "petriNet".to_string(),
        places: vec![place("p0", 0, Some(0), None)],
        transitions: vec![tdecl("t", None)],
        arcs: vec![arc("p0", "t", Some(2), None, None, Some(true), None)],
    };
    let sm = StateMachine::from_model(&net);

    let blocked = sm.transform(&vec![2], "t", 1);
    assert!(blocked.inhibited);
    assert!(!blocked.ok);

    let blocked_higher = sm.transform(&vec![7], "t", 1);
    assert!(blocked_higher.inhibited);

    let open = sm.transform(&vec![1], "t", 1);
    assert!(!open.inhibited);
    assert!(open.ok);
    assert_eq!(open.output, vec![1]);
}

#[test]
fn test_read_arc_threshold() {
    let net = PetriNet {
        model_type: "petriNet".to_string(),
        places: vec![place("p0", 0, Some(0), None)],
        transitions: vec![tdecl("t", None)],
        arcs: vec![arc("t", "p0", Some(1), None, None, Some(true), Some(true))],
    };
    let sm = StateMachine::from_model(&net);

    let blocked = sm.transform(&vec![0], "t", 1);
    assert!(blocked.inhibited);
    assert!(!blocked.ok);

    let open = sm.transform(&vec![1], "t", 1);
    assert!(!open.inhibited);
    assert!(open.ok);
    // The read arc does not consume the place.
    assert_eq!(open.output, vec![1]);
}

#[test]
fn test_workflow_reentry() {
    let net = PetriNet {
        model_type: "workflow".to_string(),
        places: vec![place("busy", 0, Some(1), None)],
        transitions: vec![tdecl("start", None)],
        arcs: vec![arc("start", "busy", Some(1), None, Some(true), None, None)],
    };
    let mut sm = StateMachine::from_model(&net);

    let refused = sm.transform(&vec![1], "start", 1);
    assert!(!refused.ok);
    assert!(refused.overflow);

    sm.transitions[0].allow_reentry = true;
    let reentered = sm.transform(&vec![1], "start", 1);
    assert!(reentered.ok);
    assert!(!reentered.overflow);
    assert_eq!(reentered.output, vec![1]);
}

#[test]
fn test_elementary_single_active_place() {
    let net = PetriNet {
        model_type: "elementary".to_string(),
        places: vec![
            place("a", 0, Some(1), None),
            place("b", 1, Some(0), None),
            place("c", 2, Some(0), None),
        ],
        transitions: vec![tdecl("go", None)],
        arcs: vec![
            arc("go", "b", Some(1), None, Some(true), None, None),
            arc("go", "c", Some(1), None, Some(true), None, None),
        ],
    };
    let sm = StateMachine::from_model(&net);
    let tx = sm.transform(&vec![1, 0, 0], "go", 1);
    assert_eq!(tx.output, vec![1, 1, 1]);
    assert!(!tx.underflow);
    assert!(!tx.overflow);
    assert!(!tx.ok);
}

#[test]
fn test_roles_deduplicated() {
    let net = PetriNet {
        model_type: "petriNet".to_string(),
        places: vec![place("p0", 0, Some(0), None)],
        transitions: vec![
            tdecl("t0", Some("admin")),
            tdecl("t1", None),
            tdecl("t2", Some("admin")),
        ],
        arcs: vec![],
    };
    let sm = StateMachine::from_model(&net);
    assert_eq!(sm.roles, vec!["admin".to_string(), "default".to_string()]);
}

#[test]
fn test_transaction_is_ok_is_err() {
    let net = start_stop_model("petriNet");
    let sm = StateMachine::from_model(&net);
    let tx = sm.transform(&vec![1, 0], "start", 1);
    assert!(tx.is_ok());
    assert!(!tx.is_err());
    let tx2 = sm.transform(&vec![0, 0], "start", 1);
    assert!(tx2.is_err());
    assert!(!tx2.is_ok());
}

#[test]
fn test_default_transition() {
    let t = vasm::machine::Transition::default();
    assert_eq!(t.label, "");
    assert_eq!(t.role, "");
    assert!(t.delta.is_empty());
    assert!(t.guards.is_empty());
    assert!(!t.allow_reentry);
}

#[test]
fn test_direct_fire_with_built_transition() {
    let net = start_stop_model("petriNet");
    let sm = StateMachine::from_model(&net);
    let mut t = vasm::machine::Transition::default();
    t.label = "burst".to_string();
    t.role = "ops".to_string();
    t.delta = vec![-1, 1];
    let tx = sm.petri_net_fire(&vec![1, 0], &t, 1);
    assert!(tx.ok);
    assert_eq!(tx.output, vec![0, 1]);
    assert_eq!(tx.role, "ops");
    assert!(!tx.inhibited);
}
