//! What the user-mode network is set up with, and the timers that it asks for.
//!
//! The network itself is run by `libslirp`, which calls back; here is what the callbacks keep
//! track of.
use vstd::prelude::*;

use crate::address::{in_network_order, MyIpv4Addr, MyIpv6Addr};
use crate::epoll::RawFd;

verus! {

/// What the network is set up with.
#[derive(Debug)]
pub struct SlirpConfig {
    pub version: u32,
    pub restricted: i32,
    pub in_enabled: bool,
    pub vnetwork: MyIpv4Addr,
    pub vnetmask: MyIpv4Addr,
    pub vhost: MyIpv4Addr,
    pub in6_enabled: bool,
    pub vprefix_addr6: MyIpv6Addr,
    pub vprefix_len: u8,
    pub vhost6: MyIpv6Addr,
    pub vhostname: Option<String>,
    pub tftp_server_name: Option<String>,
    pub tftp_path: Option<String>,
    pub bootfile: Option<String>,
    pub vdhcp_start: MyIpv4Addr,
    pub vnameserver: MyIpv4Addr,
    pub vnameserver6: MyIpv6Addr,
    pub vdnssearch: Vec<String>,
    pub vdomainname: Option<String>,
    pub if_mtu: usize,
    pub if_mru: usize,
    pub disable_host_loopback: bool,
    pub enable_emu: bool,
    pub outbound_addr: Option<MyIpv4Addr>,
    pub outbound_addr6: Option<MyIpv6Addr>,
    pub disable_dns: bool,
}

impl SlirpConfig {
    /// Whether an address lies in the network: under the mask it is the network's own.
    pub open spec fn in_network(&self, address: MyIpv4Addr) -> bool {
        forall|i: int|
            0 <= i < 4 ==> (#[trigger] address.addr@[i]) & self.vnetmask.addr@[i]
                == self.vnetwork.addr@[i]
    }
}

/// The bytes of the address `fd00::`, with another byte at its end.
pub open spec fn fd00(last: u8) -> Seq<u8> {
    Seq::new(
        16,
        |i: int|
            if i == 0 {
                0xfdu8
            } else if i == 15 {
                last
            } else {
                0u8
            },
    )
}

fn fd00_addr(last: u8) -> (r: MyIpv6Addr)
    ensures
        r.addr@ == fd00(last),
{
    let segments: [u16; 8] = [0xfd00, 0, 0, 0, 0, 0, 0, last as u16];
    let r = MyIpv6Addr::new(segments);
    proof {
        assert forall|i: int| 0 <= i < 16 implies r.addr@[i] == fd00(last)[i] by {
            assert(segments@[i / 2] == if i / 2 == 0 {
                0xfd00u16
            } else if i / 2 == 7 {
                last as u16
            } else {
                0u16
            });
            assert(i == 2 * (i / 2) || i == 2 * (i / 2) + 1);
        }
        assert(r.addr@ =~= fd00(last));
    }
    r
}

/// The network of one container: both versions of the protocol, the interface's own sizes, name
/// service and the host's loopback within reach, and nothing optional.  The host, the name
/// server and the addresses handed out lie in the network and differ.
pub fn init() -> (config: SlirpConfig)
    ensures
        config.version == 3,
        config.restricted == 0,
        config.in_enabled,
        config.vnetwork.addr@ == seq![192u8, 168, 10, 0],
        config.vnetmask.addr@ == seq![255u8, 255, 255, 0],
        config.vhost.addr@ == seq![192u8, 168, 10, 2],
        config.in6_enabled,
        config.vprefix_addr6.addr@ == fd00(0),
        config.vprefix_len == 64,
        config.vhost6.addr@ == fd00(2),
        config.vhostname is None,
        config.tftp_server_name is None,
        config.tftp_path is None,
        config.bootfile is None,
        config.vdhcp_start.addr@ == seq![192u8, 168, 10, 15],
        config.vnameserver.addr@ == seq![192u8, 168, 10, 3],
        config.vnameserver6.addr@ == fd00(3),
        config.vdnssearch@.len() == 0,
        config.vdomainname is None,
        config.if_mtu == 0,
        config.if_mru == 0,
        !config.disable_host_loopback,
        !config.enable_emu,
        config.outbound_addr is None,
        config.outbound_addr6 is None,
        !config.disable_dns,
        config.in_network(config.vhost),
        config.in_network(config.vdhcp_start),
        config.in_network(config.vnameserver),
{
    let ipv6 = true;
    let ipv4 = true;
    let mtu: usize = 0;
    let disable_host_loopback = false;
    let disable_dns = false;
    let config = SlirpConfig {
        version: 3,
        restricted: 0,
        in_enabled: ipv4,
        vnetwork: MyIpv4Addr::new(192, 168, 10, 0),
        vnetmask: MyIpv4Addr::new(255, 255, 255, 0),
        vhost: MyIpv4Addr::new(192, 168, 10, 2),
        in6_enabled: ipv6,
        vprefix_addr6: fd00_addr(0),
        vprefix_len: 64,
        vhost6: fd00_addr(2),
        vhostname: None,
        tftp_server_name: None,
        tftp_path: None,
        bootfile: None,
        vdhcp_start: MyIpv4Addr::new(192, 168, 10, 15),
        vnameserver: MyIpv4Addr::new(192, 168, 10, 3),
        vnameserver6: fd00_addr(3),
        vdnssearch: Vec::new(),
        vdomainname: None,
        if_mtu: mtu,
        if_mru: mtu,
        disable_host_loopback,
        enable_emu: false,
        outbound_addr: None,
        outbound_addr6: None,
        disable_dns,
    };
    proof {
        assert(192u8 & 255u8 == 192u8) by (bit_vector);
        assert(168u8 & 255u8 == 168u8) by (bit_vector);
        assert(10u8 & 255u8 == 10u8) by (bit_vector);
        assert(2u8 & 0u8 == 0u8) by (bit_vector);
        assert(3u8 & 0u8 == 0u8) by (bit_vector);
        assert(15u8 & 0u8 == 0u8) by (bit_vector);
    }
    config
}

/// A timer: the handle by which the network knows it, what is to be called, and when, in
/// milliseconds; a timer that was not set yet has a negative time.
#[derive(Debug, Copy, Clone)]
pub struct Timer<C> {
    pub handle: usize,
    pub cb: C,
    pub cb_opaque: usize,
    pub expire_timer_msec: i64,
}

/// The time of a timer that was not set yet.
pub const NOT_SET: i64 = -1;

/// What the callbacks work on: the descriptor of the tap device, and the timers.
#[derive(Debug)]
pub struct UserData<C> {
    pub tapfd: RawFd,
    pub timers: Vec<Timer<C>>,
}

/// The timers but for those that are kept at a place, where `places` tells for each timer at which
/// place the list keeps it.
pub open spec fn freed<C>(timers: Seq<Timer<C>>, places: Seq<usize>, place: usize) -> Seq<Timer<C>>
    decreases timers.len(),
{
    if timers.len() == 0 {
        seq![]
    } else {
        let before = freed(timers.drop_last(), places.drop_last(), place);
        if places.last() == place {
            before
        } else {
            before.push(timers.last())
        }
    }
}

/// A timer set to a time, where it has the handle.
pub open spec fn set_to<C>(timer: Timer<C>, handle: usize, expire_timer_msec: i64) -> Timer<C> {
    if timer.handle == handle {
        Timer { expire_timer_msec, ..timer }
    } else {
        timer
    }
}

/// The timers with one more, which is not set.
pub open spec fn with_new<C>(
    timers: Seq<Timer<C>>,
    handle: usize,
    cb: C,
    cb_opaque: usize,
) -> Seq<Timer<C>> {
    timers.push(Timer { handle, cb, cb_opaque, expire_timer_msec: NOT_SET })
}

/// The timers, each set to a time where it has the handle.
pub open spec fn all_set<C>(
    timers: Seq<Timer<C>>,
    handle: usize,
    expire_timer_msec: i64,
) -> Seq<Timer<C>> {
    timers.map_values(|t: Timer<C>| set_to(t, handle, expire_timer_msec))
}

impl<C: Copy> UserData<C> {
    /// No timers.
    pub fn new(tapfd: RawFd) -> (r: UserData<C>)
        ensures
            r.tapfd == tapfd,
            r.timers@.len() == 0,
    {
        UserData { tapfd, timers: Vec::new() }
    }

    /// Adds a timer that is not set.
    pub fn timer_new(&mut self, handle: usize, cb: C, cb_opaque: usize)
        ensures
            final(self).tapfd == old(self).tapfd,
            final(self).timers@ == with_new(old(self).timers@, handle, cb, cb_opaque),
    {
        self.timers.push(Timer { handle, cb, cb_opaque, expire_timer_msec: NOT_SET });
    }

    /// Takes away the timer that the list keeps at the place with this address; `places` are the
    /// addresses of the places.  The handle of a timer is the address of the timer, which is not
    /// that of a place, so that the timer stays in the list.
    pub fn timer_free(&mut self, places: &Vec<usize>, timer: usize)
        requires
            places@.len() == old(self).timers@.len(),
        ensures
            final(self).tapfd == old(self).tapfd,
            final(self).timers@ == freed(old(self).timers@, places@, timer),
    {
        let ghost all = self.timers@;
        let mut timers: Vec<Timer<C>> = Vec::new();
        let mut i: usize = 0;
        while i < self.timers.len()
            invariant
                i <= self.timers@.len(),
                self.timers@ == all,
                places@.len() == all.len(),
                self.tapfd == old(self).tapfd,
                timers@ == freed(all.take(i as int), places@.take(i as int), timer),
            decreases self.timers@.len() - i,
        {
            proof {
                assert(all.take(i + 1).drop_last() =~= all.take(i as int));
                assert(places@.take(i + 1).drop_last() =~= places@.take(i as int));
            }
            if places[i] != timer {
                timers.push(self.timers[i]);
            }
            i = i + 1;
        }
        self.timers = timers;
        proof {
            assert(all.take(i as int) =~= all);
            assert(places@.take(i as int) =~= places@);
        }
    }

    /// Sets the timer with a handle to a time.
    pub fn timer_mod(&mut self, handle: usize, expire_timer_msec: i64)
        ensures
            final(self).tapfd == old(self).tapfd,
            final(self).timers@ == all_set(old(self).timers@, handle, expire_timer_msec),
    {
        let ghost all = self.timers@;
        let mut i: usize = 0;
        while i < self.timers.len()
            invariant
                i <= self.timers@.len(),
                self.timers@.len() == all.len(),
                self.tapfd == old(self).tapfd,
                forall|k: int|
                    0 <= k < i ==> #[trigger] self.timers@[k] == set_to(
                        all[k],
                        handle,
                        expire_timer_msec,
                    ),
                forall|k: int| i <= k < all.len() ==> #[trigger] self.timers@[k] == all[k],
            decreases self.timers@.len() - i,
        {
            let timer = self.timers[i];
            if timer.handle == handle {
                self.timers.set(i, Timer { expire_timer_msec, ..timer });
            }
            i = i + 1;
        }
        proof {
            assert(self.timers@ =~= all.map_values(
                |t: Timer<C>| set_to(t, handle, expire_timer_msec),
            ));
        }
    }
}

/// An address at which the list keeps nothing, such as that of a timer itself, takes nothing away.
pub proof fn law_free_elsewhere<C>(timers: Seq<Timer<C>>, places: Seq<usize>, timer: usize)
    requires
        places.len() == timers.len(),
        !places.contains(timer),
    ensures
        freed(timers, places, timer) == timers,
    decreases timers.len(),
{
    if timers.len() > 0 {
        assert(places.contains(places[places.len() - 1]));
        assert forall|i: int| 0 <= i < places.drop_last().len() implies places.drop_last()[i]
            != timer by {
            assert(places.contains(places[i]));
        }
        law_free_elsewhere(timers.drop_last(), places.drop_last(), timer);
        assert(timers.drop_last().push(timers.last()) =~= timers);
    } else {
        assert(freed(timers, places, timer) =~= timers);
    }
}

/// To set a timer changes its time alone, leaves the other timers as they are, and overrides any
/// earlier time.
pub proof fn law_set_timer<C>(timer: Timer<C>, handle: usize, earlier: i64, later: i64)
    ensures
        set_to(timer, handle, later).handle == timer.handle,
        set_to(timer, handle, later).cb == timer.cb,
        set_to(timer, handle, later).cb_opaque == timer.cb_opaque,
        timer.handle == handle ==> set_to(timer, handle, later).expire_timer_msec == later,
        timer.handle != handle ==> set_to(timer, handle, later) == timer,
        set_to(set_to(timer, handle, earlier), handle, later) == set_to(timer, handle, later),
{
}

/// A new timer comes behind the others, which stay as they are; it has what it was given and no
/// time.
pub proof fn law_new_timer<C>(timers: Seq<Timer<C>>, handle: usize, cb: C, cb_opaque: usize)
    ensures
        ({
            let after = with_new(timers, handle, cb, cb_opaque);
            &&& after.drop_last() == timers
            &&& after.len() == timers.len() + 1
            &&& after.last().handle == handle
            &&& after.last().cb == cb
            &&& after.last().cb_opaque == cb_opaque
            &&& after.last().expire_timer_msec == -1
        }),
{
    assert(with_new(timers, handle, cb, cb_opaque).drop_last() =~= timers);
}

/// To set a time sets it on every timer with the handle, changes nothing else of them, and leaves
/// every other timer and the order as they are.
pub proof fn law_timers_set<C>(timers: Seq<Timer<C>>, handle: usize, expire_timer_msec: i64)
    ensures
        ({
            let after = all_set(timers, handle, expire_timer_msec);
            &&& after.len() == timers.len()
            &&& forall|i: int|
                0 <= i < timers.len() ==> {
                    &&& (#[trigger] after[i]).handle == timers[i].handle
                    &&& after[i].cb == timers[i].cb
                    &&& after[i].cb_opaque == timers[i].cb_opaque
                    &&& after[i].expire_timer_msec == if timers[i].handle == handle {
                        expire_timer_msec
                    } else {
                        timers[i].expire_timer_msec
                    }
                }
        }),
{
}

/// What is taken away from a list of timers is what is taken away from its parts, wherever it is
/// parted; of one timer alone, it is that timer exactly where it is kept at the place.
pub proof fn law_free_by_place<C>(
    timers: Seq<Timer<C>>,
    places: Seq<usize>,
    more: Seq<Timer<C>>,
    more_places: Seq<usize>,
    place: usize,
)
    requires
        places.len() == timers.len(),
        more_places.len() == more.len(),
    ensures
        freed(timers + more, places + more_places, place) == freed(timers, places, place) + freed(
            more,
            more_places,
            place,
        ),
        more.len() == 1 ==> freed(more, more_places, place) == if more_places[0] == place {
            Seq::<Timer<C>>::empty()
        } else {
            more
        },
    decreases more.len(),
{
    reveal_with_fuel(freed, 2);
    if more.len() == 0 {
        assert(timers + more =~= timers);
        assert(places + more_places =~= places);
        assert(freed(timers, places, place) + freed(more, more_places, place) =~= freed(
            timers,
            places,
            place,
        ));
    } else {
        law_free_by_place(timers, places, more.drop_last(), more_places.drop_last(), place);
        assert((timers + more).drop_last() =~= timers + more.drop_last());
        assert((places + more_places).drop_last() =~= places + more_places.drop_last());
        assert(freed(timers + more, places + more_places, place) =~= freed(timers, places, place)
            + freed(more, more_places, place));
        if more.len() == 1 {
            assert(freed(more, more_places, place) =~= if more_places[0] == place {
                Seq::<Timer<C>>::empty()
            } else {
                more
            });
        }
    }
}

/// The addresses of the local network have the eight segments `fd00`, six times nothing, and the
/// number of the host.
pub proof fn law_local_address(last: u8)
    ensures
        fd00(last).len() == 16,
        in_network_order(seq![0xfd00u16, 0, 0, 0, 0, 0, 0, last as u16], fd00(last)),
{
}

} // verus!
