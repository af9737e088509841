use hyveos::cid::Cid;
use hyveos::scripting::{to_client, Actor, ActorToClient, ClientAnswer, Delivery, Request, Response};

type TestActor = Actor<&'static str, &'static str, &'static str, &'static str, u8>;

#[test]
fn scripting_response_reaches_the_caller_once() {
    let mut actor: TestActor = Actor::new(7);
    actor.record_deploy(1, "deployer");
    actor.record_list(2, "lister");
    match actor.on_response::<u32>(1, Response::DeployedImage { result: Ok(42) }) {
        Delivery::Deploy(sender, result) => {
            assert_eq!(sender, "deployer");
            assert_eq!(result, Ok(42));
        }
        _ => panic!("the deployment response did not reach its caller"),
    }
    assert!(matches!(
        actor.on_response::<u32>(1, Response::DeployedImage { result: Ok(42) }),
        Delivery::Unmatched
    ));
    match actor.on_response::<u32>(2, Response::ListContainers { result: Ok(vec![3, 4]) }) {
        Delivery::List(sender, result) => {
            assert_eq!(sender, "lister");
            assert_eq!(result, Ok(vec![3, 4]));
        }
        _ => panic!("the listing response did not reach its caller"),
    }
}

#[test]
fn scripting_response_of_other_kind_is_unmatched() {
    let mut actor: TestActor = Actor::new(7);
    actor.record_deploy(5, "deployer");
    assert!(matches!(
        actor.on_response::<u32>(5, Response::StopContainer { result: Ok(()) }),
        Delivery::Unmatched
    ));
    assert!(matches!(
        actor.on_response::<u32>(5, Response::DeployedImage { result: Err("no".to_string()) }),
        Delivery::Deploy("deployer", Err(_))
    ));
}

#[test]
fn scripting_stop_all_answer_reaches_stop_caller() {
    let mut actor: TestActor = Actor::new(7);
    actor.record_stop(9, "stopper");
    match actor.on_response::<u32>(9, Response::StopAllContainers { result: Ok(()) }) {
        Delivery::Stop(sender, result) => {
            assert_eq!(sender, "stopper");
            assert_eq!(result, Ok(()));
        }
        _ => panic!("the stop response did not reach its caller"),
    }
}

#[test]
fn scripting_failure_reaches_caller_of_any_kind() {
    let mut actor: TestActor = Actor::new(7);
    actor.record_list(3, "lister");
    actor.record_stop(4, "stopper");
    match actor.on_failure::<u32>(4, "timeout".to_string()) {
        Delivery::Stop(sender, result) => {
            assert_eq!(sender, "stopper");
            assert_eq!(result, Err("timeout".to_string()));
        }
        _ => panic!("the failure did not reach the stop caller"),
    }
    match actor.on_failure::<u32>(3, "refused".to_string()) {
        Delivery::List(sender, result) => {
            assert_eq!(sender, "lister");
            assert_eq!(result, Err("refused".to_string()));
        }
        _ => panic!("the failure did not reach the listing caller"),
    }
    assert!(matches!(actor.on_failure::<u32>(3, "again".to_string()), Delivery::Unmatched));
}

#[test]
fn scripting_answer_goes_back_on_the_channel() {
    let mut actor: TestActor = Actor::new(7);
    actor.on_request(11, "channel-a", true);
    actor.on_request(12, "channel-b", false);
    match actor.answer::<u32>(ClientAnswer::DeployedImage { id: 11, result: Ok(99) }) {
        Some((channel, Response::DeployedImage { result })) => {
            assert_eq!(channel, "channel-a");
            assert_eq!(result, Ok(99));
        }
        _ => panic!("the answer did not go back"),
    }
    assert!(actor
        .answer::<u32>(ClientAnswer::StopContainerResponse { id: 11, result: Ok(()) })
        .is_none());
    assert!(actor
        .answer::<u32>(ClientAnswer::ListContainersResponse { id: 12, result: Ok(vec![]) })
        .is_none());
}

#[test]
fn scripting_answer_carries_kind_of_answer() {
    let mut actor: TestActor = Actor::new(7);
    actor.on_request(1, "a", true);
    actor.on_request(2, "b", true);
    match actor.answer::<u32>(ClientAnswer::ListContainersResponse { id: 2, result: Ok(vec![8]) }) {
        Some(("b", Response::ListContainers { result })) => assert_eq!(result, Ok(vec![8])),
        _ => panic!("wrong answer"),
    }
    match actor.answer::<u32>(ClientAnswer::StopContainerResponse { id: 1, result: Err("gone".to_string()) }) {
        Some(("a", Response::StopContainer { result })) => assert_eq!(result, Err("gone".to_string())),
        _ => panic!("wrong answer"),
    }
}

#[test]
fn scripting_receiver_is_taken_once() {
    let mut actor: TestActor = Actor::new(7);
    assert_eq!(actor.subscribe(), Some(7));
    assert_eq!(actor.subscribe(), None);
}

#[test]
fn scripting_request_reaches_manager_with_number() {
    let cid = Cid { id: 5, hash: [1u8; 32] };
    match to_client(77, Request::DeployImage { root_fs: cid, compression: "gzip", ports: vec![80, 443], persistent: true }) {
        ActorToClient::DeployImage { root_fs, compression, ports, persistent, request_id } => {
            assert_eq!(root_fs, cid);
            assert_eq!(compression, "gzip");
            assert_eq!(ports, vec![80, 443]);
            assert!(persistent);
            assert_eq!(request_id, 77);
        }
        _ => panic!("wrong request"),
    }
    assert!(matches!(
        to_client::<u8>(3, Request::StopContainer { id: 9 }),
        ActorToClient::StopContainer { request_id: 3, id: 9 }
    ));
    assert!(matches!(
        to_client::<u8>(4, Request::StopAllContainers { kill: true }),
        ActorToClient::StopAllContainers { request_id: 4, kill: true }
    ));
    assert!(matches!(to_client::<u8>(6, Request::ListContainers), ActorToClient::ListContainers { request_id: 6 }));
}
