use hyveos::topics::{TopicError, Topics};

#[test]
fn subscribed_topic_hands_out_its_channel() {
    let mut t: Topics<&str, u8> = Topics::new();
    t.insert("h-weather".to_string(), "weather", 1);
    t.insert("h-news".to_string(), "news", 2);
    assert_eq!(t.channel(&"h-news".to_string()), Ok(&2));
    assert_eq!(t.channel(&"h-weather".to_string()), Ok(&1));
    assert_eq!(
        t.channel(&"h-sports".to_string()),
        Err(TopicError::MessageWithoutTopic("h-sports".to_string()))
    );
    assert_eq!(t.position(&"h-news".to_string()), Some(1));
}

#[test]
fn topics_nobody_listens_to_are_left() {
    let mut t: Topics<&str, u8> = Topics::new();
    t.insert("a".to_string(), "A", 1);
    t.insert("b".to_string(), "B", 2);
    t.insert("c".to_string(), "C", 3);
    let counts = vec![0, 2, 0];
    assert_eq!(t.dead_topics(&counts), vec![&"A", &"C"]);
    t.retain_live(&counts);
    assert_eq!(t.channel(&"b".to_string()), Ok(&2));
    assert!(t.channel(&"a".to_string()).is_err());
    assert!(t.channel(&"c".to_string()).is_err());
    assert!(t.dead_topics(&vec![1]).is_empty());
}
