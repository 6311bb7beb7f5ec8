use pw_graph::command::connect::{ConnectCommand, ConnectManyCommand};
use pw_graph::command::disconnect::{DisconnectAllCommand, DisconnectCommand, DisconnectManyCommand};
use pw_graph::command::error::CommandError;
use pw_graph::command::reroute::RerouteLinkCommand;
use pw_graph::command::stack::CommandStack;
use pw_graph::command::transaction::{dedup_pairs, pair_description, port_description};
use pw_graph::demo::InMemoryDriver;
use pw_graph::driver::GraphDriver;
use pw_graph::graph::PortKey;
use pw_graph::ids::PortId;

fn key(driver: &InMemoryDriver, port: PortId) -> PortKey {
    driver.graph().port_key(port).expect("demo port exists")
}

fn is_connected(driver: &InMemoryDriver, output: PortId, input: PortId) -> bool {
    driver
        .graph()
        .find_link_by_keys(&key(driver, output), &key(driver, input))
        .is_some()
}

#[test]
fn connect_undo_redo_round_trip() {
    let mut driver = InMemoryDriver::demo();
    let mut commands = CommandStack::new();
    commands
        .execute(ConnectCommand::new(PortId(1), PortId(3)).into(), &mut driver)
        .unwrap();
    assert!(commands.can_undo());
    assert_eq!(commands.undo_history().len(), 1);
    assert!(commands.undo_history()[0].starts_with("Connect:"));
    assert!(commands.redo_history().is_empty());
    assert_eq!(driver.graph().links.len(), 1);
    commands.undo(&mut driver).unwrap();
    assert!(driver.graph().links.is_empty());
    assert!(commands.undo_history().is_empty());
    assert_eq!(commands.redo_history().len(), 1);
    commands.redo(&mut driver).unwrap();
    assert_eq!(driver.graph().links.len(), 1);
}

#[test]
fn connecting_an_existing_pair_is_a_noop_for_undo() {
    let mut driver = InMemoryDriver::demo();
    let mut commands = CommandStack::new();
    commands
        .execute(ConnectCommand::new(PortId(1), PortId(3)).into(), &mut driver)
        .unwrap();
    commands
        .execute(ConnectCommand::new(PortId(1), PortId(3)).into(), &mut driver)
        .unwrap();
    assert_eq!(driver.graph().links.len(), 1);
    commands.undo(&mut driver).unwrap();
    assert_eq!(driver.graph().links.len(), 1);
    commands.undo(&mut driver).unwrap();
    assert!(driver.graph().links.is_empty());
}

#[test]
fn disconnect_undo_redo_round_trip() {
    let mut driver = InMemoryDriver::demo();
    let link = driver.connect(PortId(1), PortId(3)).unwrap();
    let mut commands = CommandStack::new();
    commands
        .execute(DisconnectCommand::new(link.id).into(), &mut driver)
        .unwrap();
    assert!(driver.graph().links.is_empty());
    commands.undo(&mut driver).unwrap();
    assert_eq!(driver.graph().links.len(), 1);
    commands.redo(&mut driver).unwrap();
    assert!(driver.graph().links.is_empty());
}

#[test]
fn disconnect_all_undo_redo_round_trip() {
    let mut driver = InMemoryDriver::demo();
    driver.connect(PortId(1), PortId(3)).unwrap();
    driver.connect(PortId(2), PortId(4)).unwrap();
    let mut commands = CommandStack::new();

    commands
        .execute(DisconnectAllCommand::new().into(), &mut driver)
        .unwrap();
    assert!(driver.graph().links.is_empty());
    commands.undo(&mut driver).unwrap();
    assert_eq!(driver.graph().links.len(), 2);
    commands.redo(&mut driver).unwrap();
    assert!(driver.graph().links.is_empty());
}

#[test]
fn disconnect_commands_leave_observed_links_in_place() {
    let mut driver = InMemoryDriver::demo();
    let link = driver.connect(PortId(1), PortId(3)).unwrap();
    driver.mark_link_observed(link.id);
    let mut commands = CommandStack::new();

    commands
        .execute(DisconnectAllCommand::new().into(), &mut driver)
        .unwrap();
    assert!(driver.graph().link(link.id).is_some());
    commands.undo(&mut driver).unwrap();
    assert!(driver.graph().link(link.id).is_some());

    commands
        .execute(DisconnectCommand::new(link.id).into(), &mut driver)
        .unwrap();
    assert!(driver.graph().link(link.id).is_some());
}

#[test]
fn disconnect_many_is_one_undoable_operation() {
    let mut driver = InMemoryDriver::demo();
    let first = driver.connect(PortId(1), PortId(3)).unwrap();
    let second = driver.connect(PortId(2), PortId(4)).unwrap();
    let mut commands = CommandStack::new();

    commands
        .execute(DisconnectManyCommand::new(vec![first.id, second.id]).into(), &mut driver)
        .unwrap();
    assert!(driver.graph().links.is_empty());
    commands.undo(&mut driver).unwrap();
    assert_eq!(driver.graph().links.len(), 2);
    commands.redo(&mut driver).unwrap();
    assert!(driver.graph().links.is_empty());
}

#[test]
fn connect_many_is_one_undoable_operation() {
    let mut driver = InMemoryDriver::demo();
    let mut commands = CommandStack::new();
    commands
        .execute(
            ConnectManyCommand::new(vec![(PortId(1), PortId(3)), (PortId(2), PortId(4))]).into(),
            &mut driver,
        )
        .unwrap();
    assert_eq!(driver.graph().links.len(), 2);
    commands.undo(&mut driver).unwrap();
    assert!(driver.graph().links.is_empty());
}

#[test]
fn connect_many_undo_reconnects_links_after_a_later_disconnect_failure() {
    let mut driver = InMemoryDriver::demo();
    let mut commands = CommandStack::new();
    commands
        .execute(
            ConnectManyCommand::new(vec![(PortId(1), PortId(3)), (PortId(2), PortId(4))]).into(),
            &mut driver,
        )
        .unwrap();
    driver.fail_disconnect_of_pair(PortId(1), PortId(3));

    let error = commands.undo(&mut driver).expect_err("the second removal fails");
    assert!(matches!(error, CommandError::Backend(_)), "{error:?}");
    assert!(is_connected(&driver, PortId(1), PortId(3)));
    assert!(is_connected(&driver, PortId(2), PortId(4)));
    assert!(commands.can_undo(), "a failed undo remains retryable");
}

#[test]
fn connect_many_undo_reports_a_failed_reconnect_without_clearing_undo_state() {
    let mut driver = InMemoryDriver::demo();
    let mut commands = CommandStack::new();
    commands
        .execute(
            ConnectManyCommand::new(vec![(PortId(1), PortId(3)), (PortId(2), PortId(4))]).into(),
            &mut driver,
        )
        .unwrap();
    driver.fail_disconnect_of_pair(PortId(1), PortId(3));
    driver.fail_connect_of(PortId(2), PortId(4));

    let error = commands.undo(&mut driver).expect_err("reconnect also fails");
    match error {
        CommandError::PartiallyApplied { operation, stranded, .. } => {
            assert_eq!(operation, "Connect group undo");
            assert_eq!(stranded, 1);
        }
        other => panic!("expected partial undo, got {other:?}"),
    }
    assert!(is_connected(&driver, PortId(1), PortId(3)));
    assert!(!is_connected(&driver, PortId(2), PortId(4)));
    assert!(commands.can_undo());
}

#[test]
fn a_failed_group_disconnect_leaves_the_graph_untouched() {
    let mut driver = InMemoryDriver::demo();
    let first = driver.connect(PortId(1), PortId(3)).unwrap();
    let second = driver.connect(PortId(2), PortId(4)).unwrap();
    driver.fail_disconnect_of(second.id);
    let mut commands = CommandStack::new();

    let error = commands
        .execute(DisconnectManyCommand::new(vec![first.id, second.id]).into(), &mut driver)
        .expect_err("the group disconnect must fail");
    assert!(matches!(error, CommandError::Backend(_)));
    assert_eq!(
        driver.graph().links.len(),
        2,
        "a failed group disconnect must roll back the links it removed"
    );
    assert!(!commands.can_undo());
}

#[test]
fn reroute_undo_keeps_a_connection_it_did_not_create() {
    let mut driver = InMemoryDriver::demo();
    let moving = driver.connect(PortId(1), PortId(3)).unwrap();
    let existing = driver.connect(PortId(2), PortId(4)).unwrap();
    let mut commands = CommandStack::new();

    commands
        .execute(RerouteLinkCommand::new(moving.id, PortId(2)).into(), &mut driver)
        .unwrap();
    assert!(driver.graph().link(existing.id).is_some());

    commands.undo(&mut driver).unwrap();
    assert!(
        driver
            .graph()
            .find_link_by_keys(
                &driver.graph().port_key(PortId(2)).unwrap(),
                &driver.graph().port_key(PortId(4)).unwrap()
            )
            .is_some(),
        "undo must not delete a pre-existing connection it did not create"
    );
}

#[test]
fn reroute_redo_uses_stable_endpoints_after_restore_renumbers_link() {
    let mut driver = InMemoryDriver::demo();
    let old = driver.connect(PortId(1), PortId(3)).unwrap();
    let mut commands = CommandStack::new();

    commands
        .execute(RerouteLinkCommand::new(old.id, PortId(2)).into(), &mut driver)
        .unwrap();
    commands.undo(&mut driver).unwrap();

    let restored = driver
        .graph()
        .find_link_by_keys(
            &driver.graph().port_key(PortId(1)).unwrap(),
            &driver.graph().port_key(PortId(3)).unwrap(),
        )
        .unwrap();
    assert_ne!(restored.id, old.id);

    commands.redo(&mut driver).unwrap();
    assert!(!is_connected(&driver, PortId(1), PortId(3)));
    assert!(is_connected(&driver, PortId(2), PortId(3)));
}

#[test]
fn a_failed_reroute_restores_the_original_route() {
    let mut driver = InMemoryDriver::demo();
    let link = driver.connect(PortId(1), PortId(3)).unwrap();
    driver.fail_connect_of(PortId(2), PortId(3));
    let mut commands = CommandStack::new();

    assert!(commands
        .execute(RerouteLinkCommand::new(link.id, PortId(2)).into(), &mut driver)
        .is_err());
    assert_eq!(
        driver.graph().links.len(),
        1,
        "the original route must come back when the new one is refused"
    );
}

#[test]
fn a_failed_group_connect_rolls_every_created_link_back() {
    let mut driver = InMemoryDriver::demo();
    driver.fail_connect_of(PortId(2), PortId(4));
    let mut commands = CommandStack::new();

    let error = commands
        .execute(
            ConnectManyCommand::new(vec![(PortId(1), PortId(3)), (PortId(2), PortId(4))]).into(),
            &mut driver,
        )
        .expect_err("the second pair is refused");

    assert!(matches!(error, CommandError::Backend(_)), "{error:?}");
    assert!(driver.graph().links.is_empty(), "a created link was left behind");
    assert!(!commands.can_undo(), "a failed command must not reach the undo stack");
}

#[test]
fn a_group_connect_failing_on_a_later_pair_still_rolls_everything_back() {
    let mut driver = InMemoryDriver::demo();
    driver.fail_connect_of(PortId(2), PortId(3));
    let mut commands = CommandStack::new();

    let error = commands
        .execute(
            ConnectManyCommand::new(vec![
                (PortId(1), PortId(3)),
                (PortId(1), PortId(4)),
                (PortId(2), PortId(3)),
            ])
            .into(),
            &mut driver,
        )
        .expect_err("the third pair is refused");

    assert!(matches!(error, CommandError::Backend(_)), "{error:?}");
    assert!(driver.graph().links.is_empty());
}

#[test]
fn a_group_connect_whose_rollback_fails_reports_the_stranded_links() {
    let mut driver = InMemoryDriver::demo();
    driver.fail_connect_of(PortId(2), PortId(4));
    driver.fail_disconnect_of_pair(PortId(1), PortId(3));
    let mut commands = CommandStack::new();

    let error = commands
        .execute(
            ConnectManyCommand::new(vec![(PortId(1), PortId(3)), (PortId(2), PortId(4))]).into(),
            &mut driver,
        )
        .expect_err("the second pair is refused");

    match error {
        CommandError::PartiallyApplied { operation, stranded, .. } => {
            assert_eq!(operation, "Connect group");
            assert_eq!(stranded, 1);
        }
        other => panic!("expected a partially-applied report, got {other:?}"),
    }
    assert!(is_connected(&driver, PortId(1), PortId(3)), "the test wired this link to be unremovable");
    assert!(!is_connected(&driver, PortId(2), PortId(4)));
}

#[test]
fn a_group_connect_rollback_leaves_pre_existing_links_alone() {
    let mut driver = InMemoryDriver::demo();
    driver.connect(PortId(1), PortId(3)).unwrap();
    driver.fail_connect_of(PortId(2), PortId(4));
    let mut commands = CommandStack::new();

    assert!(commands
        .execute(
            ConnectManyCommand::new(vec![
                (PortId(1), PortId(3)),
                (PortId(1), PortId(4)),
                (PortId(2), PortId(4)),
            ])
            .into(),
            &mut driver,
        )
        .is_err());

    assert!(is_connected(&driver, PortId(1), PortId(3)), "rollback removed a link the command never created");
    assert!(!is_connected(&driver, PortId(1), PortId(4)));
    assert_eq!(driver.graph().links.len(), 1);
}

#[test]
fn connect_group_rollback_only_clears_its_own_suppression_state() {
    let mut driver = InMemoryDriver::demo();
    let unrelated_output = key(&driver, PortId(1));
    let unrelated_input = key(&driver, PortId(4));
    driver.mark_connection_suppressed(unrelated_output.clone(), unrelated_input.clone());
    driver.fail_connect_of(PortId(2), PortId(4));
    let mut commands = CommandStack::new();

    assert!(commands
        .execute(
            ConnectManyCommand::new(vec![(PortId(1), PortId(3)), (PortId(2), PortId(4))]).into(),
            &mut driver,
        )
        .is_err());

    assert!(!driver.is_connection_suppressed(&key(&driver, PortId(1)), &key(&driver, PortId(3))));
    assert!(driver.is_connection_suppressed(&unrelated_output, &unrelated_input));
}

#[test]
fn connect_many_noop_does_not_unsuppress_a_preexisting_pair() {
    let mut driver = InMemoryDriver::demo();
    driver.connect(PortId(1), PortId(3)).unwrap();
    let output = key(&driver, PortId(1));
    let input = key(&driver, PortId(3));
    driver.mark_connection_suppressed(output.clone(), input.clone());

    let mut commands = CommandStack::new();
    commands
        .execute(ConnectManyCommand::new(vec![(PortId(1), PortId(3))]).into(), &mut driver)
        .unwrap();

    assert!(driver.is_connection_suppressed(&output, &input));
    assert!(is_connected(&driver, PortId(1), PortId(3)));
}

#[test]
fn a_reroute_undo_that_cannot_restore_either_route_says_so() {
    let mut driver = InMemoryDriver::demo();
    let link = driver.connect(PortId(1), PortId(3)).unwrap();
    let mut commands = CommandStack::new();
    commands
        .execute(RerouteLinkCommand::new(link.id, PortId(2)).into(), &mut driver)
        .expect("the reroute itself succeeds");
    assert!(is_connected(&driver, PortId(2), PortId(3)));

    driver.fail_connect_of(PortId(1), PortId(3));
    driver.fail_connect_of(PortId(2), PortId(3));
    let error = commands.undo(&mut driver).expect_err("undo cannot complete");

    match error {
        CommandError::PartiallyApplied { operation, cause, stranded } => {
            assert_eq!(operation, "Reroute");
            assert_eq!(stranded, 2);
            assert!(
                cause.contains("could not be put") && cause.contains("original"),
                "the report must name both failures: {cause}"
            );
        }
        other => panic!("expected a partially-applied report, got {other:?}"),
    }
    assert!(driver.graph().links.is_empty(), "neither route survived");
}

#[test]
fn a_reroute_undo_that_can_put_the_new_route_back_reports_a_plain_error() {
    let mut driver = InMemoryDriver::demo();
    let link = driver.connect(PortId(1), PortId(3)).unwrap();
    let mut commands = CommandStack::new();
    commands
        .execute(RerouteLinkCommand::new(link.id, PortId(2)).into(), &mut driver)
        .expect("the reroute itself succeeds");

    driver.fail_connect_of(PortId(1), PortId(3));
    let error = commands.undo(&mut driver).expect_err("undo cannot complete");

    assert!(matches!(error, CommandError::Backend(_)), "{error:?}");
    assert!(is_connected(&driver, PortId(2), PortId(3)), "the rerouted link must be back");
    assert!(!is_connected(&driver, PortId(1), PortId(3)));
}

#[test]
fn command_labels_and_history_read_newest_first() {
    let mut driver = InMemoryDriver::demo();
    let mut commands = CommandStack::new();
    assert_eq!(commands.undo_label(), None);
    assert_eq!(commands.undo(&mut driver).unwrap(), false);
    assert_eq!(commands.redo(&mut driver).unwrap(), false);
    commands
        .execute(ConnectCommand::new(PortId(1), PortId(3)).into(), &mut driver)
        .unwrap();
    commands
        .execute(DisconnectAllCommand::new().into(), &mut driver)
        .unwrap();
    assert_eq!(commands.undo_label(), Some("Disconnect all"));
    assert_eq!(
        commands.undo_history(),
        vec![
            "Disconnect all (1 links)".to_string(),
            "Connect: Audio Capture / capture_FL → Audio Playback / playback_FL".to_string(),
        ]
    );
    assert_eq!(commands.undo(&mut driver).unwrap(), true);
    assert_eq!(commands.redo_label(), Some("Disconnect all"));
    assert!(commands.can_redo());
    commands
        .execute(ConnectCommand::new(PortId(2), PortId(4)).into(), &mut driver)
        .unwrap();
    assert!(!commands.can_redo(), "a new command discards the redo history");
}

#[test]
fn group_descriptions_count_their_pairs() {
    let command = ConnectManyCommand::new(vec![(PortId(1), PortId(3)), (PortId(2), PortId(4))]);
    assert_eq!(command.description(), "Connect group (2 pairs)");
    let driver = InMemoryDriver::demo();
    let output = key(&driver, PortId(1));
    let input = key(&driver, PortId(3));
    assert_eq!(port_description(&output), "Audio Capture / capture_FL");
    assert_eq!(pair_description("Connect", &None), "Connect");
    let unique = dedup_pairs(vec![
        (output.clone(), input.clone()),
        (output.clone(), input.clone()),
        (input.clone(), output.clone()),
    ]);
    assert_eq!(unique.len(), 2);
    let keyed = ConnectManyCommand::with_keys(Vec::new(), vec![(output.clone(), input.clone()), (output, input)]);
    assert_eq!(keyed.description(), "Connect group (1 pairs)");
}

#[test]
fn commands_without_a_record_cannot_be_undone() {
    let mut driver = InMemoryDriver::demo();
    let output = key(&driver, PortId(1));
    let input = key(&driver, PortId(3));
    let mut command = ConnectCommand::from_keys(output, input);
    command.execute(&mut driver).unwrap();
    assert!(is_connected(&driver, PortId(1), PortId(3)));
    command.undo(&mut driver).unwrap();
    assert!(!is_connected(&driver, PortId(1), PortId(3)));

    let mut reroute = RerouteLinkCommand::new(pw_graph::ids::LinkId(99), PortId(2));
    assert!(matches!(reroute.execute(&mut driver), Err(CommandError::MissingUndoLink)));
    let error = CommandError::PartiallyApplied { operation: "Reroute", cause: "x".into(), stranded: 2 };
    assert_eq!(error.message(), "Reroute failed and could not be rolled back: x; 2 item(s) were left changed");
    assert_eq!(CommandError::MissingUndoLink.message(), "command has no link to undo");
}
