use hyveos::debug_events::{Response, ResponseError};
use hyveos::out::CommandOutput;
use hyveos::reports::{
    deployed, downloaded_file, initialized, kv_added, kv_retrieved, mesh_event_outputs,
    provider_found, providing, published_file, published_message, received_message,
    request_received, response_received, response_sent, running_script, service_event_output,
    stopped, stopped_providing, whoami, NeighbourEventText, ReportError, ServiceEvent,
};

fn lines(o: &CommandOutput) -> (String, String) {
    let mut tty = String::new();
    o.write(&mut tty, None, true);
    let mut plain = String::new();
    o.write(&mut plain, None, false);
    (tty, plain)
}

#[test]
fn deploy_list_and_stop_lines() {
    assert_eq!(lines(&deployed("img".into(), None)), ("Deployed { img } on { local }\n".into(), "img\n".into()));
    assert_eq!(lines(&deployed("img".into(), Some("p1".into()))).0, "Deployed { img } on { p1 }\n");
    assert_eq!(
        lines(&running_script("img".into(), "42".into(), Some("web".into()))),
        ("💾 { name: web, image: img, id: 42 }\n".into(), "web,img,42\n".into())
    );
    assert_eq!(lines(&running_script("img".into(), "42".into(), None)).1, "img,42\n");
    assert_eq!(lines(&stopped(None, "7".into())), ("Stopped { 7 } on { local }\n".into(), "local,7\n".into()));
}

#[test]
fn key_value_lines() {
    let o = kv_retrieved(Some("t".into()), "k".into(), Some(b"v".to_vec())).ok().unwrap();
    assert_eq!(lines(&o), ("🔑 Retrieved { v } under { k } in topic { t }\n".into(), "v\n".into()));
    let o = kv_retrieved(None, "k".into(), None).ok().unwrap();
    assert_eq!(lines(&o), ("🔑 Retrieved { {value} } under { k }\n".into(), "Unable to retrieve key k in \n".into()));
    assert!(matches!(kv_retrieved(None, "k".into(), Some(vec![0xff])), Err(ReportError::NotUtf8)));
    assert_eq!(lines(&kv_added(None, "k".into(), "v".into())), ("🔑 Added { v } under { k }\n".into(), "v,k,\n".into()));
}

#[test]
fn discovery_file_and_identity_lines() {
    assert_eq!(lines(&providing(Some("t".into()), "k".into())).0, "🔑 Now providing { k } in topic { t }\n");
    assert_eq!(lines(&stopped_providing(None, "k".into())).1, "k,\n");
    assert_eq!(lines(&provider_found("t".into(), "k".into(), "p".into())), ("🤖 { p }\n".into(), "p\n".into()));
    assert_eq!(lines(&published_file("c".into())).0, "Published file as { c }\n");
    assert_eq!(lines(&downloaded_file("c".into(), "/tmp/x".into())).1, "c,/tmp/x\n");
    assert_eq!(lines(&whoami("me".into())).0, "🤖 You are { me }\n");
    assert_eq!(lines(&initialized("wlan0".into())), ("\n".into(), "\n".into()));
}

#[test]
fn request_and_response_lines() {
    let o = request_received("p".into(), None, b"hi".to_vec(), "3".into()).ok().unwrap();
    assert_eq!(lines(&o), ("💬 [ID: 3] { peer: p, topic: , data: hi }\n".into(), "3,p,,hi\n".into()));
    let o = response_received(Response::Data(b"ok".to_vec())).ok().unwrap();
    assert_eq!(lines(&o).1, "ok\n");
    assert!(matches!(response_received(Response::Error(ResponseError::Timeout)), Err(ReportError::Response(ResponseError::Timeout))));
    assert_eq!(lines(&response_sent("3".into(), "yes".into())).0, "Sent { yes } for { 3 }\n");
}

#[test]
fn pub_sub_lines() {
    assert_eq!(lines(&published_message("t".into(), "m".into())).1, "m,t\n");
    let o = received_message("ps".into(), "t".into(), b"m".to_vec(), b"id".to_vec(), None).ok().unwrap();
    assert_eq!(lines(&o), ("📨 { topic: t, message: m }\n".into(), "t,m\n".into()));
    let o = received_message("ps".into(), "t".into(), b"m".to_vec(), b"id".to_vec(), Some("s".into())).ok().unwrap();
    assert_eq!(lines(&o), ("📨 { topic: t, message: m, source: s }\n".into(), "t,m,s\n".into()));
    assert!(matches!(received_message("ps".into(), "t".into(), b"m".to_vec(), vec![0xc3], None), Err(ReportError::NotUtf8)));
}

#[test]
fn inspect_lines() {
    let outs = mesh_event_outputs("src".into(), NeighbourEventText::Init(vec!["a".into(), "b".into()]));
    assert_eq!(outs.len(), 2);
    assert_eq!(lines(&outs[1]), ("📡 Connected { b } to { src }\n".into(), "b,src\n".into()));
    let outs = mesh_event_outputs("src".into(), NeighbourEventText::Lost("a".into()));
    assert_eq!(lines(&outs[0]).0, "📡 Lost { a } from { src }\n");
    let o = service_event_output(ServiceEvent::GossipSub { topic: "t".into(), data: b"d".to_vec() }).ok().unwrap();
    assert_eq!(lines(&o), ("📨 {{ topic: t, data: d }}\n".into(), "pub-sub,t,d\n".into()));
    let o = service_event_output(ServiceEvent::Request { receiver: "r".into(), id: "1".into(), topic: Some("t".into()), data: b"d".to_vec() }).ok().unwrap();
    assert_eq!(lines(&o).1, "req-res/request,r,1,t,d\n");
    assert!(matches!(
        service_event_output(ServiceEvent::Response { id: "1".into(), response: Response::Error(ResponseError::Script("x".into())) }),
        Err(ReportError::Response(ResponseError::Script(_)))
    ));
}
