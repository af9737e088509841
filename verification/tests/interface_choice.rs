use hyveos::interface_choice::{
    if_type_score, if_type_to_str, listing_order, longest_name, longest_type_label, InterfaceType,
};

#[test]
fn labels_and_scores() {
    assert_eq!(if_type_to_str(&InterfaceType::Wireless80211), "Wireless 802.11 (WiFi) 🛜");
    assert_eq!(if_type_to_str(&InterfaceType::Ethernet3Megabit), "3Mb Ethernet");
    assert_eq!(if_type_to_str(&InterfaceType::Wwanpp2), "WWAN PP2");
    assert_eq!(if_type_score(&InterfaceType::Wireless80211), 5);
    assert_eq!(if_type_score(&InterfaceType::Ethernet), 4);
    assert_eq!(if_type_score(&InterfaceType::Loopback), 0);
    assert_eq!(if_type_score(&InterfaceType::Tunnel), 1);
}

#[test]
fn interfaces_are_listed_by_score_keeping_ties_in_order() {
    let types = vec![
        InterfaceType::Wireless80211,
        InterfaceType::Loopback,
        InterfaceType::Tunnel,
        InterfaceType::Ethernet,
        InterfaceType::Ppp,
    ];
    assert_eq!(listing_order(&types), vec![1, 2, 4, 3, 0]);
    assert!(listing_order(&vec![]).is_empty());
}

#[test]
fn column_widths_count_bytes() {
    let names = vec!["lo".to_string(), "wlan0".to_string(), "eth0".to_string()];
    assert_eq!(longest_name(&names), 5);
    assert_eq!(longest_name(&vec![]), 0);
    let types = vec![InterfaceType::Ppp, InterfaceType::Wireless80211];
    assert_eq!(longest_type_label(&types), "Wireless 802.11 (WiFi) 🛜".len());
}
