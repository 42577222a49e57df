use nsbox::address::{MyIpv4Addr, MyIpv6Addr};
use nsbox::slirp::{init, UserData, NOT_SET};

#[test]
fn reads_dotted_addresses() {
    assert_eq!(MyIpv4Addr::parse("192.168.10.15").unwrap().addr, [192, 168, 10, 15]);
    assert_eq!(MyIpv4Addr::parse("0.0.0.0").unwrap().addr, [0, 0, 0, 0]);
    assert_eq!(MyIpv4Addr::parse("255.255.255.255").unwrap().addr, [255, 255, 255, 255]);
    assert_eq!(MyIpv4Addr::new(1, 2, 3, 4).addr, [1, 2, 3, 4]);
}

#[test]
fn refuses_other_texts() {
    for text in [
        "", "1", "1.2.3", "1.2.3.", "1.2.3.4.", "1.2.3.4.5", ".1.2.3", "1..2.3", "256.1.1.1",
        "1.1.1.1000", "01.2.3.4", "1.2.3.00", "1.2.3.4 ", " 1.2.3.4", "a.b.c.d", "1.2.3.-4",
        "+1.2.3.4", "1,2,3,4", "99999999999.1.1.1",
    ] {
        assert!(MyIpv4Addr::parse(text).is_none(), "{}", text);
    }
}

#[test]
fn every_octet_is_read() {
    for n in 0..=255u8 {
        let text = format!("{}.{}.{}.{}", n, 255 - n, n / 2, 7);
        assert_eq!(MyIpv4Addr::parse(&text).unwrap().addr, [n, 255 - n, n / 2, 7]);
    }
}

#[test]
fn segments_are_in_network_order() {
    let addr = MyIpv6Addr::new([0xfd00, 0, 0, 0, 0x1234, 0, 0, 2]).addr;
    assert_eq!(addr, [0xfd, 0, 0, 0, 0, 0, 0, 0, 0x12, 0x34, 0, 0, 0, 0, 0, 2]);
}

#[test]
fn configuration() {
    let prefix = MyIpv6Addr::new([0xfd00, 0, 0, 0, 0, 0, 0, 0]);
    let host = MyIpv6Addr::new([0xfd00, 0, 0, 0, 0, 0, 0, 2]);
    let dns = MyIpv6Addr::new([0xfd00, 0, 0, 0, 0, 0, 0, 3]);
    let config = init();
    assert_eq!(config.version, 3);
    assert_eq!(config.restricted, 0);
    assert!(config.in_enabled && config.in6_enabled);
    assert_eq!(config.vnetwork.addr, [192, 168, 10, 0]);
    assert_eq!(config.vnetmask.addr, [255, 255, 255, 0]);
    assert_eq!(config.vhost.addr, [192, 168, 10, 2]);
    assert_eq!(config.vnameserver.addr, [192, 168, 10, 3]);
    assert_eq!(config.vdhcp_start.addr, [192, 168, 10, 15]);
    assert_eq!(config.vprefix_addr6.addr, prefix.addr);
    assert_eq!(config.vprefix_len, 64);
    assert_eq!(config.vhost6.addr, host.addr);
    assert_eq!(config.vnameserver6.addr, dns.addr);
    assert!(config.vhostname.is_none() && config.tftp_server_name.is_none());
    assert!(config.tftp_path.is_none() && config.bootfile.is_none());
    assert!(config.vdnssearch.is_empty() && config.vdomainname.is_none());
    assert_eq!((config.if_mtu, config.if_mru), (0, 0));
    assert!(!config.disable_host_loopback && !config.enable_emu && !config.disable_dns);
    assert!(config.outbound_addr.is_none() && config.outbound_addr6.is_none());
}

#[test]
fn timers() {
    let mut data = UserData::<u8>::new(7);
    assert_eq!(data.tapfd, 7);
    data.timer_new(100, 1, 11);
    data.timer_new(200, 2, 22);
    data.timer_new(300, 3, 33);
    assert_eq!(NOT_SET, -1);
    assert!(data.timers.iter().all(|t| t.expire_timer_msec == -1));
    data.timer_mod(200, 5000);
    let times: Vec<i64> = data.timers.iter().map(|t| t.expire_timer_msec).collect();
    assert_eq!(times, vec![-1, 5000, -1]);
    data.timer_mod(200, 6000);
    assert_eq!(data.timers[1].expire_timer_msec, 6000);
    assert_eq!((data.timers[1].cb, data.timers[1].cb_opaque), (2, 22));
    let places = vec![1000, 1008, 1016];
    // a handle is no place
    data.timer_free(&places, 200);
    let handles: Vec<usize> = data.timers.iter().map(|t| t.handle).collect();
    assert_eq!(handles, vec![100, 200, 300]);
    data.timer_free(&places, 1008);
    let handles: Vec<usize> = data.timers.iter().map(|t| t.handle).collect();
    assert_eq!(handles, vec![100, 300]);
}

#[test]
fn freeing_by_handle_keeps_timers() {
    let mut data = UserData::<u8>::new(7);
    data.timer_new(100, 1, 11);
    data.timer_new(200, 2, 22);
    data.timer_free(&vec![8, 16], 200);
    let handles: Vec<usize> = data.timers.iter().map(|t| t.handle).collect();
    assert_eq!(handles, vec![100, 200]);
}
