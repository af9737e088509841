use hyveos::containers::{container_setup, deploy_result, persisted_ports, ContainerHandle, Containers, ExecutionError, PortBind, RunningScript};

fn handle(id: u128, image: &str, name: Option<&str>) -> ContainerHandle<u8> {
    ContainerHandle { id, image_name: image.to_string(), script_name: name.map(|n| n.to_string()), task: id as u8 }
}

#[test]
fn persistent_scripts_keep_their_ports() {
    assert_eq!(persisted_ports(true, &vec![80, 443]), Some(vec![80, 443]));
    assert_eq!(persisted_ports(false, &vec![80]), None);
}

#[test]
fn deployment_fails_only_where_storing_failed() {
    assert_eq!(deploy_result(7, None), Ok(7));
    assert_eq!(deploy_result(7, Some(Ok(()))), Ok(7));
    assert_eq!(deploy_result(7, Some(Err("disk full".to_string()))), Err(ExecutionError::Persistence("disk full".to_string())));
}

#[test]
fn containers_are_listed_until_stopped() {
    let mut c: Containers<u8> = Containers::new();
    assert_eq!(c.add_handle(handle(1, "img-a", Some("a")), Some(vec![8080])), Some(("img-a".to_string(), vec![8080])));
    assert_eq!(c.add_handle(handle(2, "img-b", None), None), None);
    let mut listed = c.list_containers();
    listed.sort_by_key(|s| s.id);
    assert_eq!(
        listed,
        vec![
            RunningScript { id: 1, image: "img-a".to_string(), name: Some("a".to_string()) },
            RunningScript { id: 2, image: "img-b".to_string(), name: None },
        ]
    );
    match c.stop_container(1) {
        Ok(h) => assert_eq!(h.image_name, "img-a"),
        Err(_) => panic!("the container was running"),
    }
    assert!(matches!(c.stop_container(1), Err(ExecutionError::ContainerNotFound(1))));
    let listed = c.list_containers();
    assert_eq!(listed.len(), 1);
    assert_eq!(listed[0].id, 2);
}

#[test]
fn stopping_all_hands_out_every_container() {
    let mut c: Containers<u8> = Containers::new();
    c.add_handle(handle(3, "x", None), None);
    c.add_handle(handle(4, "y", None), None);
    c.add_handle(handle(3, "z", None), None);
    let mut all: Vec<u128> = c.stop_all_containers().into_iter().map(|h| h.id).collect();
    all.sort();
    assert_eq!(all, vec![3, 4]);
    assert!(c.list_containers().is_empty());
    assert!(c.stop_all_containers().is_empty());
}

#[test]
fn container_setup_mounts_shares_and_exposes_ports() {
    let setup = container_setup(1, Some("/tmp/share".to_string()), "/hyveos/shared", "/run/b.sock".to_string(), &vec![80, 443])
        .expect("a UTF-8 shared directory");
    assert_eq!(setup.name, "00000000000000000000000001");
    assert_eq!(
        setup.volumes,
        vec![
            ("/tmp/share".to_string(), "/hyveos/shared".to_string()),
            ("/run/b.sock".to_string(), "/var/run/bridge.sock".to_string()),
        ]
    );
    assert_eq!(
        setup.env,
        vec![
            ("P2P_INDUSTRIES_SHARED_DIR".to_string(), "/hyveos/shared".to_string()),
            ("P2P_INDUSTRIES_BRIDGE_SOCKET".to_string(), "/var/run/bridge.sock".to_string()),
        ]
    );
    assert_eq!(
        setup.ports,
        vec![(80, PortBind::AnyV4), (80, PortBind::AnyV6), (443, PortBind::AnyV4), (443, PortBind::AnyV6)]
    );
    assert_eq!(container_setup(1, None, "/x", "/y".to_string(), &vec![]), Err(ExecutionError::SharedDirPathInvalid));
}
