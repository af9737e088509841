//! Offering the network interfaces for the mesh: how each kind of interface is named and
//! ranked, in which order the interfaces are listed, and how wide the list's columns are.
use vstd::prelude::*;
use vstd::utf8::encode_utf8;

verus! {

/// The kind of a network interface.
#[derive(Clone, Copy)]
pub enum InterfaceType {
    Unknown,
    Ethernet,
    TokenRing,
    Fddi,
    BasicIsdn,
    PrimaryIsdn,
    Ppp,
    Loopback,
    Ethernet3Megabit,
    Slip,
    Atm,
    GenericModem,
    FastEthernetT,
    Isdn,
    FastEthernetFx,
    Wireless80211,
    AsymmetricDsl,
    RateAdaptDsl,
    SymmetricDsl,
    VeryHighSpeedDsl,
    IPOverAtm,
    GigabitEthernet,
    Tunnel,
    MultiRateSymmetricDsl,
    HighPerformanceSerialBus,
    Wman,
    Wwanpp,
    Wwanpp2,
}

/// The label shown for each kind of interface.
pub open spec fn type_label(ty: InterfaceType) -> Seq<char> {
    match ty {
        InterfaceType::Unknown => "Unknown"@,
        InterfaceType::Ethernet => "Ethernet"@,
        InterfaceType::TokenRing => "Token Ring"@,
        InterfaceType::Fddi => "FDDI"@,
        InterfaceType::BasicIsdn => "Basic ISDN"@,
        InterfaceType::PrimaryIsdn => "Primary ISDN"@,
        InterfaceType::Ppp => "PPP"@,
        InterfaceType::Loopback => "Loopback"@,
        InterfaceType::Ethernet3Megabit => "3Mb Ethernet"@,
        InterfaceType::Slip => "SLIP"@,
        InterfaceType::Atm => "ATM"@,
        InterfaceType::GenericModem => "Generic Modem"@,
        InterfaceType::FastEthernetT => "Fast Ethernet (T)"@,
        InterfaceType::Isdn => "ISDN"@,
        InterfaceType::FastEthernetFx => "Fast Ethernet (FX)"@,
        InterfaceType::Wireless80211 => "Wireless 802.11 (WiFi) 🛜"@,
        InterfaceType::AsymmetricDsl => "Asymmetric DSL"@,
        InterfaceType::RateAdaptDsl => "Rate-Adapt DSL"@,
        InterfaceType::SymmetricDsl => "Symmetric DSL"@,
        InterfaceType::VeryHighSpeedDsl => "Very High Speed DSL"@,
        InterfaceType::IPOverAtm => "IP over ATM"@,
        InterfaceType::GigabitEthernet => "Gigabit Ethernet"@,
        InterfaceType::Tunnel => "Tunnel"@,
        InterfaceType::MultiRateSymmetricDsl => "Multi-Rate Symmetric DSL"@,
        InterfaceType::HighPerformanceSerialBus => "High Performance Serial Bus"@,
        InterfaceType::Wman => "WMAN"@,
        InterfaceType::Wwanpp => "WWAN PP"@,
        InterfaceType::Wwanpp2 => "WWAN PP2"@,
    }
}

/// How far down the list an interface goes: wireless last, then the wired ones, then
/// the rest, and the loopback first.
pub open spec fn type_score(ty: InterfaceType) -> u8 {
    match ty {
        InterfaceType::Wireless80211 => 5,
        InterfaceType::Ethernet => 4,
        InterfaceType::Ethernet3Megabit => 3,
        InterfaceType::GigabitEthernet => 2,
        InterfaceType::Loopback => 0,
        _ => 1,
    }
}

/// The label shown for a kind of interface.
pub fn if_type_to_str(ty: &InterfaceType) -> (r: &'static str)
    ensures
        r@ == type_label(*ty),
{
    match ty {
        InterfaceType::Unknown => "Unknown",
        InterfaceType::Ethernet => "Ethernet",
        InterfaceType::TokenRing => "Token Ring",
        InterfaceType::Fddi => "FDDI",
        InterfaceType::BasicIsdn => "Basic ISDN",
        InterfaceType::PrimaryIsdn => "Primary ISDN",
        InterfaceType::Ppp => "PPP",
        InterfaceType::Loopback => "Loopback",
        InterfaceType::Ethernet3Megabit => "3Mb Ethernet",
        InterfaceType::Slip => "SLIP",
        InterfaceType::Atm => "ATM",
        InterfaceType::GenericModem => "Generic Modem",
        InterfaceType::FastEthernetT => "Fast Ethernet (T)",
        InterfaceType::Isdn => "ISDN",
        InterfaceType::FastEthernetFx => "Fast Ethernet (FX)",
        InterfaceType::Wireless80211 => "Wireless 802.11 (WiFi) 🛜",
        InterfaceType::AsymmetricDsl => "Asymmetric DSL",
        InterfaceType::RateAdaptDsl => "Rate-Adapt DSL",
        InterfaceType::SymmetricDsl => "Symmetric DSL",
        InterfaceType::VeryHighSpeedDsl => "Very High Speed DSL",
        InterfaceType::IPOverAtm => "IP over ATM",
        InterfaceType::GigabitEthernet => "Gigabit Ethernet",
        InterfaceType::Tunnel => "Tunnel",
        InterfaceType::MultiRateSymmetricDsl => "Multi-Rate Symmetric DSL",
        InterfaceType::HighPerformanceSerialBus => "High Performance Serial Bus",
        InterfaceType::Wman => "WMAN",
        InterfaceType::Wwanpp => "WWAN PP",
        InterfaceType::Wwanpp2 => "WWAN PP2",
    }
}

/// How far down the list a kind of interface goes.
pub fn if_type_score(ty: &InterfaceType) -> (r: u8)
    ensures
        r == type_score(*ty),
{
    match ty {
        InterfaceType::Wireless80211 => 5,
        InterfaceType::Ethernet => 4,
        InterfaceType::Ethernet3Megabit => 3,
        InterfaceType::GigabitEthernet => 2,
        InterfaceType::Loopback => 0,
        _ => 1,
    }
}

/// Interface `x` is listed before interface `y`: it scores lower, or as much and came
/// first.
pub open spec fn listed_before(types: Seq<InterfaceType>, x: int, y: int) -> bool {
    type_score(types[x]) < type_score(types[y]) || (type_score(types[x]) == type_score(types[y]) && x < y)
}

/// `order` lists each of the interfaces once, by score, those of equal score in the
/// order in which they came.
pub open spec fn is_listing_order(types: Seq<InterfaceType>, order: Seq<usize>) -> bool {
    &&& forall|a: int| 0 <= a < order.len() ==> (#[trigger] order[a]) < types.len()
    &&& forall|i: usize| (i as int) < types.len() ==> #[trigger] order.contains(i)
    &&& forall|a: int, b: int| 0 <= a < b < order.len() ==> listed_before(types, #[trigger] order[a] as int, #[trigger] order[b] as int)
}

/// The positions of the interfaces in the order in which they are listed: a stable
/// sort by score.
pub fn listing_order(types: &Vec<InterfaceType>) -> (order: Vec<usize>)
    ensures
        is_listing_order(types@, order@),
        order@.len() == types@.len(),
{
    let mut order: Vec<usize> = Vec::new();
    let mut score: u8 = 0;
    while score <= 5
        invariant
            score <= 6,
            forall|a: int| 0 <= a < order@.len() ==> (#[trigger] order@[a]) < types@.len() && type_score(types@[order@[a] as int]) < score,
            forall|j: usize| (j as int) < types@.len() && type_score(types@[j as int]) < score ==> #[trigger] order@.contains(j),
            forall|a: int, b: int| 0 <= a < b < order@.len() ==> listed_before(types@, #[trigger] order@[a] as int, #[trigger] order@[b] as int),
        decreases 6 - score,
    {
        let mut i: usize = 0;
        while i < types.len()
            invariant
                score <= 5,
                i <= types@.len(),
                forall|a: int| 0 <= a < order@.len() ==> (#[trigger] order@[a]) < types@.len() && (type_score(types@[order@[a] as int]) < score
                    || (type_score(types@[order@[a] as int]) == score && order@[a] < i)),
                forall|j: usize| (j as int) < types@.len() && (type_score(types@[j as int]) < score || (type_score(types@[j as int]) == score && j < i)) ==> #[trigger] order@.contains(j),
                forall|a: int, b: int| 0 <= a < b < order@.len() ==> listed_before(types@, #[trigger] order@[a] as int, #[trigger] order@[b] as int),
            decreases types@.len() - i,
        {
            if if_type_score(&types[i]) == score {
                let ghost before = order@;
                order.push(i);
                proof {
                    assert forall|j: usize| (j as int) < types@.len() && (type_score(types@[j as int]) < score || (type_score(types@[j as int]) == score && j < i + 1)) implies #[trigger] order@.contains(j) by {
                        if j == i {
                            assert(order@[before.len() as int] == i);
                        } else {
                            assert(before.contains(j));
                            let a = choose|a: int| 0 <= a < before.len() && before[a] == j;
                            assert(order@[a] == j);
                        }
                    }
                    assert forall|a: int, b: int| 0 <= a < b < order@.len() implies listed_before(types@, #[trigger] order@[a] as int, #[trigger] order@[b] as int) by {
                        if b == before.len() {
                            assert(order@[a] == before[a]);
                        } else {
                            assert(order@[a] == before[a] && order@[b] == before[b]);
                        }
                    }
                }
            } else {
                proof {
                    assert forall|j: usize| (j as int) < types@.len() && (type_score(types@[j as int]) < score || (type_score(types@[j as int]) == score && j < i + 1)) implies #[trigger] order@.contains(j) by {
                        if j == i {
                            assert(type_score(types@[j as int]) != score);
                        }
                    }
                }
            }
            i = i + 1;
        }
        score = score + 1;
    }
    proof {
        assert forall|i: usize| (i as int) < types@.len() implies #[trigger] order@.contains(i) by {
            assert(type_score(types@[i as int]) <= 5);
        }
        assert(types@.len() == types.len());
        lemma_listing_order_len(types@, order@);
    }
    order
}

proof fn lemma_listing_order_len(types: Seq<InterfaceType>, order: Seq<usize>)
    requires
        is_listing_order(types, order),
        types.len() <= usize::MAX,
    ensures
        order.len() == types.len(),
{
    let s = order.to_set();
    assert(order.no_duplicates()) by {
        assert forall|a: int, b: int| 0 <= a < order.len() && 0 <= b < order.len() && a != b implies order[a] != order[b] by {
            if a < b {
                assert(listed_before(types, order[a] as int, order[b] as int));
            } else {
                assert(listed_before(types, order[b] as int, order[a] as int));
            }
        }
    }
    order.unique_seq_to_set();
    let full = Set::new(|x: usize| (x as int) < types.len());
    assert(s =~= full) by {
        assert forall|x: usize| s.contains(x) <==> full.contains(x) by {
            if s.contains(x) {
                let a = choose|a: int| 0 <= a < order.len() && order[a] == x;
                assert(order[a] < types.len());
            }
            if full.contains(x) {
                assert(order.contains(x));
            }
        }
    }
    lemma_index_set_len(types.len());
}

proof fn lemma_index_set_len(n: nat)
    ensures
        Set::new(|x: usize| (x as int) < n).finite(),
        n <= usize::MAX + 1 ==> Set::new(|x: usize| (x as int) < n).len() == n,
    decreases n,
{
    let s = Set::new(|x: usize| (x as int) < n);
    if n == 0 {
        assert(s =~= Set::<usize>::empty());
    } else {
        lemma_index_set_len((n - 1) as nat);
        let t = Set::new(|x: usize| (x as int) < n - 1);
        if n <= usize::MAX + 1 {
            assert(s =~= t.insert((n - 1) as usize));
        } else {
            assert(s =~= t);
        }
    }
}

/// The greatest of some lengths, or 0 if there are none.
pub open spec fn longest(lens: Seq<nat>) -> nat
    decreases lens.len(),
{
    if lens.len() == 0 {
        0
    } else {
        let rest = longest(lens.drop_last());
        if lens.last() > rest { lens.last() } else { rest }
    }
}

/// The width of the column of interface names: the longest name, in bytes as a `usize`
/// counts them.
pub fn longest_name(names: &Vec<String>) -> (r: usize)
    ensures
        r == longest(names@.map_values(|n: String| (encode_utf8(n@).len() as usize) as nat)),
{
    let ghost lens = names@.map_values(|n: String| (encode_utf8(n@).len() as usize) as nat);
    let mut r: usize = 0;
    let mut i: usize = 0;
    while i < names.len()
        invariant
            i <= names.len(),
            lens == names@.map_values(|n: String| (encode_utf8(n@).len() as usize) as nat),
            r == longest(lens.take(i as int)),
        decreases names.len() - i,
    {
        let len = names[i].as_str().len();
        assert(lens.take(i + 1).drop_last() =~= lens.take(i as int));
        assert(lens.take(i + 1).last() == len);
        if len > r {
            r = len;
        }
        i = i + 1;
    }
    assert(lens.take(i as int) =~= lens);
    r
}

/// The width of the column of interface kinds: the longest label, in bytes as a `usize`
/// counts them.
pub fn longest_type_label(types: &Vec<InterfaceType>) -> (r: usize)
    ensures
        r == longest(types@.map_values(|t: InterfaceType| (encode_utf8(type_label(t)).len() as usize) as nat)),
{
    let ghost lens = types@.map_values(|t: InterfaceType| (encode_utf8(type_label(t)).len() as usize) as nat);
    let mut r: usize = 0;
    let mut i: usize = 0;
    while i < types.len()
        invariant
            i <= types.len(),
            lens == types@.map_values(|t: InterfaceType| (encode_utf8(type_label(t)).len() as usize) as nat),
            r == longest(lens.take(i as int)),
        decreases types.len() - i,
    {
        let len = if_type_to_str(&types[i]).len();
        assert(lens.take(i + 1).drop_last() =~= lens.take(i as int));
        assert(lens.take(i + 1).last() == len);
        if len > r {
            r = len;
        }
        i = i + 1;
    }
    assert(lens.take(i as int) =~= lens);
    r
}

/// The wired kinds that the list places between the rest and the wireless interfaces.
pub open spec fn is_wired_kind(ty: InterfaceType) -> bool {
    ty is GigabitEthernet || ty is Ethernet3Megabit || ty is Ethernet
}

/// In the listing, the loopback comes first and the wireless interfaces last; between
/// them come the kinds that are neither loopback, wireless nor wired Ethernet, then
/// Gigabit Ethernet, then 3Mb Ethernet, then Ethernet. Whatever interfaces there are,
/// no interface is listed before one of a kind that goes earlier.
pub proof fn lemma_listing_by_kind(types: Seq<InterfaceType>, order: Seq<usize>, a: int, b: int)
    requires
        is_listing_order(types, order),
        0 <= a < b < order.len(),
    ensures
        ({
            let x = types[order[a] as int];
            let y = types[order[b] as int];
            &&& y is Loopback ==> x is Loopback
            &&& x is Wireless80211 ==> y is Wireless80211
            &&& (is_wired_kind(x) || x is Wireless80211) ==> (is_wired_kind(y) || y is Wireless80211)
            &&& y is GigabitEthernet ==> !(x is Ethernet3Megabit || x is Ethernet || x is Wireless80211)
            &&& y is Ethernet3Megabit ==> !(x is Ethernet || x is Wireless80211)
            &&& y is Ethernet ==> !(x is Wireless80211)
        }),
{
    assert(listed_before(types, order[a] as int, order[b] as int));
}

} // verus!
