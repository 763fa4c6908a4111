//! Which interfaces are direct: exactly the usable ones, each with its first address that other
//! hosts can answer to, in the order in which the system reports them.
use crate::address::Ipv4Addr;
use crate::direct_server::{
    as_direct, direct_among, first_routable, first_with_ip, names_hyper_v, DirectInterfaceView,
    NetworkInterface,
};
use crate::text::{has_part, lower, lower_char, stands_at};
use vstd::prelude::*;

verus! {

/// The first address of a list that is not 0.0.0.0, no loopback and no link-local address is the
/// one that an interface is used with; an interface without such an address has none.
pub proof fn lemma_first_routable_is_the_first(ips: Seq<Ipv4Addr>)
    ensures
        match first_routable(ips) {
            Some(ip) => exists|k: int|
                0 <= k < ips.len() && #[trigger] ips[k] == ip && !(ip.a == 0 && ip.b == 0 && ip.c == 0
                    && ip.d == 0) && ip.a != 127 && !(ip.a == 169 && ip.b == 254) && forall|j: int|
                    0 <= j < k ==> ((#[trigger] ips[j]).a == 0 && ips[j].b == 0 && ips[j].c == 0
                        && ips[j].d == 0) || ips[j].a == 127 || (ips[j].a == 169 && ips[j].b == 254),
            None => forall|j: int|
                0 <= j < ips.len() ==> ((#[trigger] ips[j]).a == 0 && ips[j].b == 0 && ips[j].c == 0
                    && ips[j].d == 0) || ips[j].a == 127 || (ips[j].a == 169 && ips[j].b == 254),
        },
    decreases ips.len(),
{
    if ips.len() > 0 {
        let rest = ips.skip(1);
        lemma_first_routable_is_the_first(rest);
        if first_routable(ips) == Some(ips[0]) && !(ips[0].a == 0 && ips[0].b == 0 && ips[0].c == 0
            && ips[0].d == 0) && ips[0].a != 127 && !(ips[0].a == 169 && ips[0].b == 254) {
            assert(ips[0] == first_routable(ips)->0);
        } else {
            match first_routable(rest) {
                Some(ip) => {
                    let k = choose|k: int|
                        0 <= k < rest.len() && #[trigger] rest[k] == ip && forall|j: int|
                            0 <= j < k ==> ((#[trigger] rest[j]).a == 0 && rest[j].b == 0
                                && rest[j].c == 0 && rest[j].d == 0) || rest[j].a == 127 || (
                            rest[j].a == 169 && rest[j].b == 254);
                    assert(ips[k + 1] == ip);
                    assert forall|j: int| 0 <= j < k + 1 implies ((#[trigger] ips[j]).a == 0
                        && ips[j].b == 0 && ips[j].c == 0 && ips[j].d == 0) || ips[j].a == 127 || (
                    ips[j].a == 169 && ips[j].b == 254) by {
                        if j > 0 {
                            assert(rest[j - 1] == ips[j]);
                        }
                    }
                },
                None => {
                    assert forall|j: int| 0 <= j < ips.len() implies ((#[trigger] ips[j]).a == 0
                        && ips[j].b == 0 && ips[j].c == 0 && ips[j].d == 0) || ips[j].a == 127 || (
                    ips[j].a == 169 && ips[j].b == 254) by {
                        if j > 0 {
                            assert(rest[j - 1] == ips[j]);
                        }
                    }
                },
            }
        }
    }
}

/// Every hardware interface that is up and connected, has a gateway and an address that other hosts
/// can answer to, and is neither a tunnel nor an end point is a direct interface, whatever its
/// type.
pub proof fn lemma_usable_hardware_is_direct(interface: NetworkInterface, k: int)
    requires
        interface.has_gateway,
        interface.status matches Some(status) && status.oper_status == 1 && status.if_type != 131
            && !status.not_media_connected && !status.end_point && status.hardware,
        0 <= k < interface.ipv4@.len(),
        !(interface.ipv4@[k].a == 0 && interface.ipv4@[k].b == 0 && interface.ipv4@[k].c == 0
            && interface.ipv4@[k].d == 0),
        interface.ipv4@[k].a != 127,
        !(interface.ipv4@[k].a == 169 && interface.ipv4@[k].b == 254),
    ensures
        as_direct(interface) matches Some(direct) && direct.index == interface.index
            && first_routable(interface.ipv4@) == Some(direct.local_ip),
{
    lemma_first_routable_is_the_first(interface.ipv4@);
}

/// Such an interface is listed wherever the system reports it.
pub proof fn lemma_usable_hardware_is_listed(found: Seq<NetworkInterface>, i: int, k: int)
    requires
        0 <= i < found.len(),
        found[i].has_gateway,
        found[i].status matches Some(status) && status.oper_status == 1 && status.if_type != 131
            && !status.not_media_connected && !status.end_point && status.hardware,
        0 <= k < found[i].ipv4@.len(),
        !(found[i].ipv4@[k].a == 0 && found[i].ipv4@[k].b == 0 && found[i].ipv4@[k].c == 0
            && found[i].ipv4@[k].d == 0),
        found[i].ipv4@[k].a != 127,
        !(found[i].ipv4@[k].a == 169 && found[i].ipv4@[k].b == 254),
    ensures
        exists|n: int|
            0 <= n < direct_among(found).len() && (#[trigger] direct_among(found)[n]).index
                == found[i].index && first_routable(found[i].ipv4@) == Some(
                direct_among(found)[n].local_ip,
            ),
{
    lemma_usable_hardware_is_direct(found[i], k);
    let direct = as_direct(found[i])->0;
    crate::direct_laws::lemma_direct_interfaces_are_reported(found, direct);
    assert(as_direct(found[i]) == Some(direct));
    let n = choose|n: int| 0 <= n < direct_among(found).len() && direct_among(found)[n] == direct;
    assert(direct_among(found)[n].index == found[i].index);
}

/// A text that writes the name of the Hyper-V adapter, in any case and with anything around it, is
/// the description of one.
pub proof fn lemma_hyper_v_is_recognized(before: Seq<char>, name: Seq<char>, after: Seq<char>)
    requires
        name.len() == "hyper-v virtual ethernet adapter"@.len(),
        forall|i: int|
            0 <= i < name.len() ==> {
                let low = "hyper-v virtual ethernet adapter"@[i];
                #[trigger] name[i] == low || ('a' <= low && low <= 'z' && name[i] as u32 + 32
                    == low as u32)
            },
    ensures
        names_hyper_v(Some(before + name + after)),
{
    let part = "hyper-v virtual ethernet adapter"@;
    reveal_strlit("hyper-v virtual ethernet adapter");
    let text = lower(before + name + after);
    let at = before.len() as int;
    assert forall|i: int| 0 <= i < part.len() implies text[at + i] == #[trigger] part[i] by {
        assert((before + name + after)[at + i] == name[i]);
        assert(text[at + i] == lower_char(name[i]));
    }
    assert(text.subrange(at, at + part.len() as int) =~= part);
    assert(stands_at(text, part, at));
    assert(has_part(text, part));
}

/// The description of a Hyper-V adapter writes its name somewhere, in any case.
pub proof fn lemma_hyper_v_is_written(description: Seq<char>)
    requires
        names_hyper_v(Some(description)),
    ensures
        exists|at: int|
            0 <= at && at + "hyper-v virtual ethernet adapter"@.len() <= description.len()
                && #[trigger] lower(
                description.subrange(at, at + "hyper-v virtual ethernet adapter"@.len() as int),
            ) == "hyper-v virtual ethernet adapter"@,
{
    let part = "hyper-v virtual ethernet adapter"@;
    let text = lower(description);
    let at = choose|at: int| stands_at(text, part, at);
    let piece = description.subrange(at, at + part.len() as int);
    assert(lower(piece) =~= text.subrange(at, at + part.len() as int));
    assert(lower(piece) == part);
}

/// An Ethernet adapter of a Hyper-V external switch is used like hardware.
pub proof fn lemma_usable_hyper_v_is_direct(interface: NetworkInterface, k: int)
    requires
        interface.has_gateway,
        interface.status matches Some(status) && status.oper_status == 1 && status.if_type == 6
            && !status.not_media_connected && !status.end_point,
        interface.description matches Some(text) && names_hyper_v(Some(text@)),
        0 <= k < interface.ipv4@.len(),
        !(interface.ipv4@[k].a == 0 && interface.ipv4@[k].b == 0 && interface.ipv4@[k].c == 0
            && interface.ipv4@[k].d == 0),
        interface.ipv4@[k].a != 127,
        !(interface.ipv4@[k].a == 169 && interface.ipv4@[k].b == 254),
    ensures
        as_direct(interface) matches Some(direct) && direct.index == interface.index
            && first_routable(interface.ipv4@) == Some(direct.local_ip),
{
    lemma_first_routable_is_the_first(interface.ipv4@);
}

/// A direct interface has a gateway, is up and connected and neither a tunnel nor an end point, and
/// is hardware or an Ethernet adapter of a Hyper-V external switch. It keeps its index and is used
/// with its first address that other hosts can answer to.
pub proof fn lemma_direct_interfaces_are_usable(interface: NetworkInterface)
    requires
        as_direct(interface) is Some,
    ensures
        interface.has_gateway,
        interface.status matches Some(status) && status.oper_status == 1 && status.if_type != 131
            && !status.not_media_connected && !status.end_point && (status.hardware || (
        status.if_type == 6 && (interface.description matches Some(text) && names_hyper_v(
            Some(text@),
        )))),
        as_direct(interface)->0.index == interface.index,
        first_routable(interface.ipv4@) == Some(as_direct(interface)->0.local_ip),
{
}

/// A direct interface is shown by its friendly name, and by its own name where it has no friendly
/// one or an empty one.
pub proof fn lemma_direct_interfaces_are_shown_by_name(interface: NetworkInterface)
    requires
        as_direct(interface) is Some,
    ensures
        interface.friendly_name matches Some(name) && name@.len() > 0
            ==> as_direct(interface)->0.name == interface.friendly_name->0@,
        interface.friendly_name is None || interface.friendly_name->0@.len() == 0 ==> as_direct(
            interface,
        )->0.name == interface.name@,
{
}

/// The direct interfaces of two lists, one after the other, are those of the first and then those
/// of the second: they stand in the order in which they were reported, each once.
pub proof fn lemma_direct_interfaces_keep_their_order(
    a: Seq<NetworkInterface>,
    b: Seq<NetworkInterface>,
)
    ensures
        direct_among(a + b) == direct_among(a) + direct_among(b),
    decreases b.len(),
{
    if b.len() == 0 {
        assert(a + b =~= a);
        assert(direct_among(a) + direct_among(b) =~= direct_among(a));
    } else {
        assert((a + b).drop_last() =~= a + b.drop_last());
        assert((a + b).last() == b.last());
        lemma_direct_interfaces_keep_their_order(a, b.drop_last());
        assert(direct_among(a + b) =~= direct_among(a) + direct_among(b));
    }
}

/// A single reported interface is the whole list where it is direct; else the list is empty.
pub proof fn lemma_one_interface(interface: NetworkInterface)
    ensures
        direct_among(seq![interface]) == match as_direct(interface) {
            Some(direct) => seq![direct],
            None => Seq::empty(),
        },
{
    let one = seq![interface];
    assert(one.drop_last() =~= Seq::<NetworkInterface>::empty());
    assert(direct_among(one.drop_last()) =~= Seq::empty());
    assert(direct_among(one) =~= match as_direct(interface) {
        Some(direct) => seq![direct],
        None => Seq::empty(),
    });
}

/// The interface for a local address is the first one with that address.
pub proof fn lemma_interface_for_an_address_is_the_first(
    interfaces: Seq<DirectInterfaceView>,
    k: int,
)
    requires
        0 <= k < interfaces.len(),
        forall|j: int|
            0 <= j < k ==> (#[trigger] interfaces[j]).local_ip != interfaces[k].local_ip,
    ensures
        first_with_ip(interfaces, interfaces[k].local_ip) == Some(interfaces[k]),
    decreases k,
{
    if k > 0 {
        let rest = interfaces.skip(1);
        assert(rest[k - 1] == interfaces[k]);
        assert(interfaces[0].local_ip != interfaces[k].local_ip);
        assert forall|j: int| 0 <= j < k - 1 implies (#[trigger] rest[j]).local_ip != rest[k
            - 1].local_ip by {
            assert(rest[j] == interfaces[j + 1]);
        }
        lemma_interface_for_an_address_is_the_first(rest, k - 1);
    }
}

} // verus!
