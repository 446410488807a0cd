use kmflow::state::{ConnectionState, TransitionError};

#[test]
fn valid_transitions() {
    let valid = vec![
        (ConnectionState::Disconnected, ConnectionState::Discovering),
        (ConnectionState::Disconnected, ConnectionState::Active),
        (ConnectionState::Discovering, ConnectionState::Connected),
        (ConnectionState::Connected, ConnectionState::Active),
        (ConnectionState::Active, ConnectionState::Disconnected),
        (ConnectionState::Active, ConnectionState::Reconnecting),
        (ConnectionState::Reconnecting, ConnectionState::Active),
        (ConnectionState::Reconnecting, ConnectionState::Disconnected),
    ];
    for (from, to) in valid {
        let mut state = from;
        assert!(
            state.transition_to(to).is_ok(),
            "{} -> {} 应该合法",
            from.to_string(),
            to.to_string()
        );
        assert_eq!(state, to);
    }
}

#[test]
fn invalid_transitions() {
    let invalid = vec![
        (ConnectionState::Disconnected, ConnectionState::Reconnecting),
        (ConnectionState::Active, ConnectionState::Discovering),
        (ConnectionState::Connected, ConnectionState::Reconnecting),
        (ConnectionState::Reconnecting, ConnectionState::Pairing),
    ];
    for (from, to) in invalid {
        let mut state = from;
        assert!(
            state.transition_to(to).is_err(),
            "{} -> {} 应该非法",
            from.to_string(),
            to.to_string()
        );
        // 状态不变
        assert_eq!(state, from);
    }
}

#[test]
fn is_connected_variants() {
    assert!(!ConnectionState::Disconnected.is_connected());
    assert!(!ConnectionState::Discovering.is_connected());
    assert!(ConnectionState::Connected.is_connected());
    assert!(ConnectionState::Active.is_connected());
    assert!(ConnectionState::Suspended.is_connected());
    assert!(ConnectionState::Reconnecting.is_connected());
}

#[test]
fn display_format() {
    assert_eq!(ConnectionState::Active.to_string(), "active");
    assert_eq!(ConnectionState::Disconnected.to_string(), "disconnected");
    assert_eq!(ConnectionState::Reconnecting.to_string(), "reconnecting");
}

const ALL: [ConnectionState; 7] = [
    ConnectionState::Disconnected,
    ConnectionState::Discovering,
    ConnectionState::Pairing,
    ConnectionState::Connected,
    ConnectionState::Active,
    ConnectionState::Suspended,
    ConnectionState::Reconnecting,
];

#[test]
fn every_state_has_its_name() {
    let names: Vec<String> = ALL.iter().map(|s| s.to_string()).collect();
    assert_eq!(
        names,
        vec![
            "disconnected",
            "discovering",
            "pairing",
            "connected",
            "active",
            "suspended",
            "reconnecting"
        ]
    );
}

#[test]
fn refused_steps_say_what_was_refused() {
    let mut state = ConnectionState::Active;
    let err = state.transition_to(ConnectionState::Pairing).unwrap_err();
    assert_eq!(
        err,
        TransitionError {
            from: ConnectionState::Active,
            to: ConnectionState::Pairing
        }
    );
    assert_eq!(err.message(), "invalid state transition: active -> pairing");
}

#[test]
fn steps_never_stay_and_agree_with_the_table() {
    for from in ALL {
        for to in ALL {
            let mut state = from;
            let stepped = state.transition_to(to).is_ok();
            assert_eq!(stepped, from.can_transition_to(to));
            assert_eq!(state, if stepped { to } else { from });
            if from == to {
                assert!(!stepped);
            }
        }
    }
}

#[test]
fn a_connection_ends_only_in_disconnected() {
    for from in ALL {
        for to in ALL {
            if from.is_connected() && from.can_transition_to(to) {
                assert!(to.is_connected() || to == ConnectionState::Disconnected);
            }
        }
    }
}
