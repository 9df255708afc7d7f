use vstd::prelude::*;

use crate::text::{chars_of, has_prefix, opt_view, same_chars, starts_with};

verus! {

/// The family of an interface address.
#[derive(Clone, Copy, Debug, PartialEq, Eq, Structural)]
pub enum IpFamily {
    V4,
    V6,
}

/// An address bound to an interface, in its canonical textual form.
pub struct IfAddress {
    pub family: IpFamily,
    pub text: String,
}

/// A network interface: its name and its bound addresses, in the order the system
/// lists them.
pub struct NetworkInterface {
    pub name: String,
    pub addrs: Vec<IfAddress>,
}

/// Whether some address of `ifc` starts with `prefix`.
pub open spec fn has_prefixed_addr(ifc: NetworkInterface, prefix: Seq<char>) -> bool {
    exists|k: int| 0 <= k < ifc.addrs@.len() && starts_with(#[trigger] ifc.addrs@[k].text@, prefix)
}

/// The name of the first interface at or after `i` with an address that starts with
/// `prefix`.
pub open spec fn first_match_from(ifs: Seq<NetworkInterface>, prefix: Seq<char>, i: nat) -> Option<
    Seq<char>,
>
    decreases ifs.len() - i,
{
    if i >= ifs.len() {
        None
    } else if has_prefixed_addr(ifs[i as int], prefix) {
        Some(ifs[i as int].name@)
    } else {
        first_match_from(ifs, prefix, i + 1)
    }
}

/// The text of the first IPv6 address at or after `k`.
pub open spec fn first_v6_from(addrs: Seq<IfAddress>, k: nat) -> Option<Seq<char>>
    decreases addrs.len() - k,
{
    if k >= addrs.len() {
        None
    } else if addrs[k as int].family == IpFamily::V6 {
        Some(addrs[k as int].text@)
    } else {
        first_v6_from(addrs, k + 1)
    }
}

/// The first IPv6 address of the interfaces named `name`, from the `i`-th on, in order.
pub open spec fn v6_of_named_from(ifs: Seq<NetworkInterface>, name: Seq<char>, i: nat) -> Option<
    Seq<char>,
>
    decreases ifs.len() - i,
{
    if i >= ifs.len() {
        None
    } else if ifs[i as int].name@ == name && first_v6_from(ifs[i as int].addrs@, 0) is Some {
        first_v6_from(ifs[i as int].addrs@, 0)
    } else {
        v6_of_named_from(ifs, name, i + 1)
    }
}

/// The address found for `prefix`: the interface is picked in `scan`, and its IPv6
/// address looked up in `rescan`, a later listing of the interfaces.
pub open spec fn resolve(
    scan: Seq<NetworkInterface>,
    rescan: Seq<NetworkInterface>,
    prefix: Seq<char>,
) -> Option<Seq<char>> {
    match first_match_from(scan, prefix, 0) {
        Some(name) => v6_of_named_from(rescan, name, 0),
        None => None,
    }
}

/// The address found for `prefix`, empty where there is none.
pub open spec fn resolved_text(
    scan: Seq<NetworkInterface>,
    rescan: Seq<NetworkInterface>,
    prefix: Seq<char>,
) -> Seq<char> {
    match resolve(scan, rescan, prefix) {
        Some(a) => a,
        None => Seq::empty(),
    }
}

fn any_addr_with_prefix(ifc: &NetworkInterface, p: &Vec<char>) -> (r: bool)
    ensures
        r == has_prefixed_addr(*ifc, p@),
{
    let mut k: usize = 0;
    while k < ifc.addrs.len()
        invariant
            k <= ifc.addrs@.len(),
            forall|j: int| 0 <= j < k ==> !starts_with(#[trigger] ifc.addrs@[j].text@, p@),
        decreases ifc.addrs@.len() - k,
    {
        let t = chars_of(ifc.addrs[k].text.as_str());
        if has_prefix(&t, p) {
            return true;
        }
        k = k + 1;
    }
    false
}

/// The name of the first interface with an address whose text starts with `prefix`.
pub fn get_interface_by_ipv4_prefix(ifaces: &Vec<NetworkInterface>, prefix: &str) -> (r: Option<
    String,
>)
    ensures
        opt_view(r) == first_match_from(ifaces@, prefix@, 0),
{
    let p = chars_of(prefix);
    let mut i: usize = 0;
    while i < ifaces.len()
        invariant
            i <= ifaces@.len(),
            p@ == prefix@,
            first_match_from(ifaces@, prefix@, 0) == first_match_from(ifaces@, prefix@, i as nat),
        decreases ifaces@.len() - i,
    {
        if any_addr_with_prefix(&ifaces[i], &p) {
            return Some(ifaces[i].name.clone());
        }
        i = i + 1;
    }
    None
}

fn first_v6(addrs: &Vec<IfAddress>) -> (r: Option<String>)
    ensures
        opt_view(r) == first_v6_from(addrs@, 0),
{
    let mut k: usize = 0;
    while k < addrs.len()
        invariant
            k <= addrs@.len(),
            first_v6_from(addrs@, 0) == first_v6_from(addrs@, k as nat),
        decreases addrs@.len() - k,
    {
        if addrs[k].family == IpFamily::V6 {
            return Some(addrs[k].text.clone());
        }
        k = k + 1;
    }
    None
}

/// The first IPv6 address of the interfaces named `interface`, in listing order.
pub fn get_ipv6_by_interface(ifaces: &Vec<NetworkInterface>, interface: &str) -> (r: Option<
    String,
>)
    ensures
        opt_view(r) == v6_of_named_from(ifaces@, interface@, 0),
{
    let want = chars_of(interface);
    let mut i: usize = 0;
    while i < ifaces.len()
        invariant
            i <= ifaces@.len(),
            want@ == interface@,
            v6_of_named_from(ifaces@, interface@, 0) == v6_of_named_from(
                ifaces@,
                interface@,
                i as nat,
            ),
        decreases ifaces@.len() - i,
    {
        let name = chars_of(ifaces[i].name.as_str());
        if same_chars(&name, &want) {
            match first_v6(&ifaces[i].addrs) {
                Some(a) => {
                    return Some(a);
                },
                None => {},
            }
        }
        i = i + 1;
    }
    None
}

/// The IPv6 address of the first interface in `scan` with an address that starts with
/// `prefix`, looked up by name in `rescan`, a later listing of the interfaces.
pub fn get_ipv6_by_ipv4_prefix(
    scan: &Vec<NetworkInterface>,
    rescan: &Vec<NetworkInterface>,
    prefix: &str,
) -> (r: Option<String>)
    ensures
        opt_view(r) == resolve(scan@, rescan@, prefix@),
{
    match get_interface_by_ipv4_prefix(scan, prefix) {
        Some(interface) => get_ipv6_by_interface(rescan, interface.as_str()),
        None => None,
    }
}

/// The address answered for `prefix`: as `get_ipv6_by_ipv4_prefix`, empty where there
/// is none.
pub fn get_ipv6(scan: &Vec<NetworkInterface>, rescan: &Vec<NetworkInterface>, prefix: &str) -> (r:
    String)
    ensures
        r@ == resolved_text(scan@, rescan@, prefix@),
{
    match get_ipv6_by_ipv4_prefix(scan, rescan, prefix) {
        Some(a) => a,
        None => String::new(),
    }
}

proof fn lemma_first_match_none(ifs: Seq<NetworkInterface>, prefix: Seq<char>, i: nat)
    requires
        forall|j: int| i <= j < ifs.len() ==> !has_prefixed_addr(#[trigger] ifs[j], prefix),
    ensures
        first_match_from(ifs, prefix, i) is None,
    decreases ifs.len() - i,
{
    if i < ifs.len() {
        lemma_first_match_none(ifs, prefix, i + 1);
    }
}

proof fn lemma_first_match_at(ifs: Seq<NetworkInterface>, prefix: Seq<char>, i: nat, x: nat)
    requires
        i <= x < ifs.len(),
        has_prefixed_addr(ifs[x as int], prefix),
        forall|j: int| i <= j < x ==> !has_prefixed_addr(#[trigger] ifs[j], prefix),
    ensures
        first_match_from(ifs, prefix, i) == Some(ifs[x as int].name@),
    decreases x - i,
{
    if i < x {
        lemma_first_match_at(ifs, prefix, i + 1, x);
    }
}

proof fn lemma_first_v6_none(addrs: Seq<IfAddress>, k: nat)
    requires
        forall|m: int| k <= m < addrs.len() ==> (#[trigger] addrs[m]).family != IpFamily::V6,
    ensures
        first_v6_from(addrs, k) is None,
    decreases addrs.len() - k,
{
    if k < addrs.len() {
        lemma_first_v6_none(addrs, k + 1);
    }
}

proof fn lemma_first_v6_at(addrs: Seq<IfAddress>, k: nat, at: nat)
    requires
        k <= at < addrs.len(),
        addrs[at as int].family == IpFamily::V6,
        forall|m: int| k <= m < at ==> (#[trigger] addrs[m]).family != IpFamily::V6,
    ensures
        first_v6_from(addrs, k) == Some(addrs[at as int].text@),
    decreases at - k,
{
    if k < at {
        lemma_first_v6_at(addrs, k + 1, at);
    }
}

proof fn lemma_named_none(ifs: Seq<NetworkInterface>, name: Seq<char>, i: nat)
    requires
        forall|j: int, k: int|
            i <= j < ifs.len() && ifs[j].name@ == name && 0 <= k < ifs[j].addrs@.len() ==> (
            #[trigger] ifs[j].addrs@[k]).family != IpFamily::V6,
    ensures
        v6_of_named_from(ifs, name, i) is None,
    decreases ifs.len() - i,
{
    if i < ifs.len() {
        if ifs[i as int].name@ == name {
            lemma_first_v6_none(ifs[i as int].addrs@, 0);
        }
        lemma_named_none(ifs, name, i + 1);
    }
}

proof fn lemma_named_at(ifs: Seq<NetworkInterface>, name: Seq<char>, i: nat, x: nat)
    requires
        i <= x < ifs.len(),
        ifs[x as int].name@ == name,
        first_v6_from(ifs[x as int].addrs@, 0) is Some,
        forall|j: int, k: int|
            i <= j < x && ifs[j].name@ == name && 0 <= k < ifs[j].addrs@.len() ==> (
            #[trigger] ifs[j].addrs@[k]).family != IpFamily::V6,
    ensures
        v6_of_named_from(ifs, name, i) == first_v6_from(ifs[x as int].addrs@, 0),
    decreases x - i,
{
    if i < x {
        if ifs[i as int].name@ == name {
            lemma_first_v6_none(ifs[i as int].addrs@, 0);
        }
        lemma_named_at(ifs, name, i + 1, x);
    }
}

/// Where no address of any interface in `scan` starts with `prefix`, the answer is
/// empty, whatever the later listing holds.
pub proof fn lemma_no_match_gives_empty(
    scan: Seq<NetworkInterface>,
    rescan: Seq<NetworkInterface>,
    prefix: Seq<char>,
)
    requires
        forall|i: int, k: int|
            0 <= i < scan.len() && 0 <= k < scan[i].addrs@.len() ==> !starts_with(
                #[trigger] scan[i].addrs@[k].text@,
                prefix,
            ),
    ensures
        resolved_text(scan, rescan, prefix) == Seq::<char>::empty(),
{
    assert forall|j: int| 0 <= j < scan.len() implies !has_prefixed_addr(
        #[trigger] scan[j],
        prefix,
    ) by {
        if has_prefixed_addr(scan[j], prefix) {
            let k = choose|k: int|
                0 <= k < scan[j].addrs@.len() && starts_with(#[trigger] scan[j].addrs@[k].text@, prefix);
            assert(!starts_with(scan[j].addrs@[k].text@, prefix));
        }
    }
    lemma_first_match_none(scan, prefix, 0);
}

/// Where interface `x` is the first one with an address that starts with `prefix`,
/// holds an IPv4 address `k4` with that prefix and an IPv6 address `k6`, the first of
/// its IPv6 addresses, and no interface before it of the same name has an IPv6
/// address, the answer is the text of address `k6`.
pub proof fn lemma_match_gives_its_ipv6(
    ifs: Seq<NetworkInterface>,
    prefix: Seq<char>,
    x: int,
    k4: int,
    k6: int,
)
    requires
        0 <= x < ifs.len(),
        0 <= k4 < ifs[x].addrs@.len(),
        0 <= k6 < ifs[x].addrs@.len(),
        ifs[x].addrs@[k4].family == IpFamily::V4,
        starts_with(ifs[x].addrs@[k4].text@, prefix),
        ifs[x].addrs@[k6].family == IpFamily::V6,
        forall|k: int| 0 <= k < k6 ==> (#[trigger] ifs[x].addrs@[k]).family != IpFamily::V6,
        forall|j: int| 0 <= j < x ==> !has_prefixed_addr(#[trigger] ifs[j], prefix),
        forall|j: int, k: int|
            0 <= j < x && ifs[j].name@ == ifs[x].name@ && 0 <= k < ifs[j].addrs@.len() ==> (
            #[trigger] ifs[j].addrs@[k]).family != IpFamily::V6,
    ensures
        resolved_text(ifs, ifs, prefix) == ifs[x].addrs@[k6].text@,
{
    assert(has_prefixed_addr(ifs[x], prefix));
    lemma_first_match_at(ifs, prefix, 0, x as nat);
    lemma_first_v6_at(ifs[x].addrs@, 0, k6 as nat);
    lemma_named_at(ifs, ifs[x].name@, 0, x as nat);
}

/// Where interface `x` is the first one with an address that starts with `prefix` and
/// no interface of its name has an IPv6 address, the answer is empty.
pub proof fn lemma_match_without_ipv6_gives_empty(
    ifs: Seq<NetworkInterface>,
    prefix: Seq<char>,
    x: int,
)
    requires
        0 <= x < ifs.len(),
        has_prefixed_addr(ifs[x], prefix),
        forall|j: int| 0 <= j < x ==> !has_prefixed_addr(#[trigger] ifs[j], prefix),
        forall|j: int, k: int|
            0 <= j < ifs.len() && ifs[j].name@ == ifs[x].name@ && 0 <= k < ifs[j].addrs@.len()
                ==> (#[trigger] ifs[j].addrs@[k]).family != IpFamily::V6,
    ensures
        resolved_text(ifs, ifs, prefix) == Seq::<char>::empty(),
{
    lemma_first_match_at(ifs, prefix, 0, x as nat);
    lemma_named_none(ifs, ifs[x].name@, 0);
}

} // verus!
