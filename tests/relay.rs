use wl_app_id_proxy::fds::FdQueue;
use wl_app_id_proxy::proto::{
    frame_size, read_arg_string, read_arg_uint, read_packet, write_arg_bytes, write_arg_string,
    write_arg_uint, write_packet, ArgError, FrameError, Packet,
};
use wl_app_id_proxy::tracker::{Config, ObjType, RelayError, Tracker};

fn string_arg(s: &str) -> Vec<u8> {
    let mut out = vec![];
    write_arg_string(&mut out, s);
    out
}

fn decode_string(body: &[u8]) -> Option<String> {
    let mut pos = 0usize;
    let r = read_arg_string(body, &mut pos).unwrap();
    assert_eq!(pos, body.len());
    r
}

fn config(prefix: bool) -> Config {
    Config { app_id: "com.example.group".to_string(), prefix }
}

fn tracker_with_toplevel() -> Tracker {
    let mut t = Tracker::new();
    t.objects.insert(5, ObjType::XdgToplevel { ver: 1 });
    t
}

#[test]
fn passthrough_is_byte_identical() {
    let input = vec![1u8, 0, 0, 0, 0, 0, 12, 0, 0, 0, 0, 0];
    let mut pos = 0usize;
    let packet = read_packet(&input, &mut pos).unwrap().unwrap();
    assert_eq!(pos, 12);
    let mut t = Tracker::new();
    let out = t.forward_request(packet, &config(false)).unwrap();
    assert_eq!(out, input);
}

#[test]
fn registry_discovery() {
    let mut t = Tracker::new();
    let mut body = vec![];
    write_arg_uint(&mut body, 2);
    let mut get_registry = Packet { id: 1, opcode: 1, body };
    t.on_request(&mut get_registry, &config(false)).unwrap();
    assert_eq!(t.objects.get(&2), Some(&ObjType::Registry));

    let mut body = vec![];
    write_arg_uint(&mut body, 7);
    write_arg_string(&mut body, "xdg_wm_base");
    write_arg_uint(&mut body, 3);
    t.on_event(&Packet { id: 2, opcode: 0, body }).unwrap();
    assert_eq!(t.xdg_wm_base_global, Some((7, 3)));
    assert_eq!(t.registry_id, Some(2));

    let mut body = vec![];
    write_arg_uint(&mut body, 7);
    write_arg_string(&mut body, "xdg_wm_base");
    write_arg_uint(&mut body, 3);
    write_arg_uint(&mut body, 42);
    let mut bind = Packet { id: 2, opcode: 0, body };
    t.on_request(&mut bind, &config(false)).unwrap();
    assert_eq!(t.objects.get(&42), Some(&ObjType::XdgWmBase { ver: 3 }));
}

#[test]
fn first_global_wins() {
    let mut t = Tracker::new();
    t.objects.insert(2, ObjType::Registry);
    for name in [7u32, 9] {
        let mut body = vec![];
        write_arg_uint(&mut body, name);
        write_arg_string(&mut body, "xdg_wm_base");
        write_arg_uint(&mut body, 3);
        t.on_event(&Packet { id: 2, opcode: 0, body }).unwrap();
    }
    assert_eq!(t.xdg_wm_base_global, Some((7, 3)));
}

#[test]
fn bind_before_global_tracks_nothing() {
    let mut t = Tracker::new();
    t.objects.insert(2, ObjType::Registry);
    let mut body = vec![];
    write_arg_uint(&mut body, 7);
    write_arg_string(&mut body, "xdg_wm_base");
    write_arg_uint(&mut body, 3);
    write_arg_uint(&mut body, 42);
    let mut bind = Packet { id: 2, opcode: 0, body };
    t.on_request(&mut bind, &config(false)).unwrap();
    assert_eq!(t.objects.get(&42), None);
}

#[test]
fn surface_and_toplevel_are_tracked() {
    let mut t = Tracker::new();
    t.objects.insert(42, ObjType::XdgWmBase { ver: 3 });
    let mut body = vec![];
    write_arg_uint(&mut body, 43);
    write_arg_uint(&mut body, 10);
    let mut get_surface = Packet { id: 42, opcode: 2, body };
    t.on_request(&mut get_surface, &config(false)).unwrap();
    assert_eq!(t.objects.get(&43), Some(&ObjType::XdgSurface { ver: 3 }));
    let mut body = vec![];
    write_arg_uint(&mut body, 44);
    let mut get_toplevel = Packet { id: 43, opcode: 1, body };
    t.on_request(&mut get_toplevel, &config(false)).unwrap();
    assert_eq!(t.objects.get(&44), Some(&ObjType::XdgToplevel { ver: 3 }));
}

#[test]
fn replace_app_id() {
    let mut t = tracker_with_toplevel();
    let packet = Packet { id: 5, opcode: 3, body: string_arg("firefox") };
    let out = t.forward_request(packet, &config(false)).unwrap();
    assert_eq!(out.len(), 32);
    assert_eq!(&out[6..8], &[32u8, 0]);
    let mut pos = 0usize;
    let sent = read_packet(&out, &mut pos).unwrap().unwrap();
    assert_eq!(sent.id, 5);
    assert_eq!(sent.opcode, 3);
    assert_eq!(decode_string(&sent.body), Some("com.example.group".to_string()));
}

#[test]
fn prefix_app_id() {
    let mut t = tracker_with_toplevel();
    let mut packet = Packet { id: 5, opcode: 3, body: string_arg("firefox") };
    t.on_request(&mut packet, &config(true)).unwrap();
    assert_eq!(decode_string(&packet.body), Some("com.example.groupfirefox".to_string()));
}

#[test]
fn prefix_with_null() {
    let mut t = tracker_with_toplevel();
    let mut body = vec![];
    write_arg_uint(&mut body, 0);
    let mut packet = Packet { id: 5, opcode: 3, body };
    t.on_request(&mut packet, &config(true)).unwrap();
    assert_eq!(decode_string(&packet.body), Some("com.example.group".to_string()));
}

#[test]
fn other_opcodes_on_toplevel_pass() {
    let mut t = tracker_with_toplevel();
    let body = string_arg("title");
    let mut packet = Packet { id: 5, opcode: 2, body: body.clone() };
    t.on_request(&mut packet, &config(false)).unwrap();
    assert_eq!(packet.body, body);
}

#[test]
fn untracked_set_app_id_passes() {
    let mut t = Tracker::new();
    let body = string_arg("firefox");
    let mut packet = Packet { id: 5, opcode: 3, body: body.clone() };
    t.on_request(&mut packet, &config(false)).unwrap();
    assert_eq!(packet.body, body);
}

#[test]
fn unsupported_version() {
    let mut t = Tracker::new();
    t.objects.insert(5, ObjType::XdgToplevel { ver: 7 });
    let mut packet = Packet { id: 5, opcode: 3, body: string_arg("firefox") };
    assert_eq!(
        t.on_request(&mut packet, &config(false)),
        Err(RelayError::UnsupportedVersion(7))
    );
    assert_eq!(packet.body, string_arg("firefox"));
}

#[test]
fn bad_app_id_body() {
    let mut t = tracker_with_toplevel();
    let mut packet = Packet { id: 5, opcode: 3, body: vec![1, 0] };
    assert_eq!(
        t.on_request(&mut packet, &config(false)),
        Err(RelayError::Arg(ArgError::Uint))
    );
}

#[test]
fn delete_id_removal() {
    let mut t = Tracker::new();
    t.objects.insert(7, ObjType::XdgToplevel { ver: 1 });
    let mut body = vec![];
    write_arg_uint(&mut body, 7);
    let out = t.forward_event(Packet { id: 1, opcode: 1, body }).unwrap();
    assert_eq!(out, vec![1, 0, 0, 0, 1, 0, 12, 0, 7, 0, 0, 0]);
    assert_eq!(t.objects.get(&7), None);
    assert_eq!(t.objects.get(&1), Some(&ObjType::Display));
}

#[test]
fn fd_queue_keeps_order_and_sends_once() {
    let mut q = FdQueue::new();
    q.received(&[10, 11]);
    q.received(&[12]);
    assert_eq!(q.len(), 3);
    assert_eq!(q.take_all(), vec![10, 11, 12]);
    assert_eq!(q.take_all(), Vec::<i32>::new());
}

#[test]
fn string_round_trip() {
    for s in ["", "a", "abc", "abcd", "ü-wayland"] {
        let enc = string_arg(s);
        assert_eq!(enc.len() % 4, 0);
        assert_eq!(decode_string(&enc), Some(s.to_string()));
    }
    assert_eq!(string_arg("firefox"), vec![8, 0, 0, 0, b'f', b'i', b'r', b'e', b'f', b'o', b'x', 0]);
}

#[test]
fn null_string_round_trip() {
    let mut enc = vec![];
    write_arg_uint(&mut enc, 0);
    assert_eq!(decode_string(&enc), None);
}

#[test]
fn string_errors() {
    let mut pos = 0usize;
    assert_eq!(read_arg_string(&[1, 0], &mut pos), Err(ArgError::Uint));
    assert_eq!(read_arg_string(&[5, 0, 0, 0, b'a', b'b'], &mut pos), Err(ArgError::StringBody));
    assert_eq!(read_arg_string(&[2, 0, 0, 0, 0xff, 0, 0, 0], &mut pos), Err(ArgError::BadUtf8));
    assert_eq!(pos, 0);
    let mut raw = vec![];
    write_arg_bytes(&mut raw, &[0xc3, 0xbc]);
    assert_eq!(decode_string(&raw), Some("ü".to_string()));
}

#[test]
fn uint_codec() {
    let mut out = vec![];
    write_arg_uint(&mut out, 0x0403_0201);
    assert_eq!(out, vec![1, 2, 3, 4]);
    let mut pos = 0usize;
    assert_eq!(read_arg_uint(&out, &mut pos), Ok(0x0403_0201));
    assert_eq!(pos, 4);
    assert_eq!(read_arg_uint(&out, &mut pos), Err(ArgError::Uint));
}

#[test]
fn packet_round_trip() {
    let p = Packet { id: 0x1234_5678, opcode: 9, body: vec![1, 2, 3, 4, 5, 6, 7, 8] };
    let mut out = vec![];
    write_packet(&mut out, &p).unwrap();
    assert_eq!(frame_size(&out[..8]), Some(16));
    out.extend_from_slice(&[9, 9]);
    let mut pos = 0usize;
    let q = read_packet(&out, &mut pos).unwrap().unwrap();
    assert_eq!((q.id, q.opcode, q.body.clone()), (p.id, p.opcode, p.body.clone()));
    assert_eq!(pos, 16);
    assert!(read_packet(&out, &mut pos).unwrap().is_none());
}

#[test]
fn frame_errors() {
    let mut pos = 0usize;
    assert!(read_packet(&[], &mut pos).unwrap().is_none());
    assert_eq!(read_packet(&[1, 0, 0, 0, 0], &mut pos).err(), Some(FrameError::HeaderWord2));
    assert_eq!(read_packet(&[1, 0, 0, 0, 0, 0, 4, 0], &mut pos).err(), Some(FrameError::Length));
    assert_eq!(read_packet(&[1, 0, 0, 0, 0, 0, 16, 0, 1], &mut pos).err(), Some(FrameError::Body));
    assert_eq!(frame_size(&[1, 0, 0, 0, 0, 0, 4, 0]), None);
    let big = Packet { id: 1, opcode: 0, body: vec![0; 65528] };
    let mut out = vec![];
    assert_eq!(write_packet(&mut out, &big), Err(FrameError::TooLong));
    assert!(out.is_empty());
}

#[test]
fn events_pass_verbatim() {
    let mut t = Tracker::new();
    t.objects.insert(2, ObjType::Registry);
    let mut body = vec![];
    write_arg_uint(&mut body, 3);
    write_arg_string(&mut body, "wl_seat");
    write_arg_uint(&mut body, 8);
    let mut input = vec![];
    write_packet(&mut input, &Packet { id: 2, opcode: 0, body }).unwrap();
    let mut pos = 0usize;
    let packet = read_packet(&input, &mut pos).unwrap().unwrap();
    let out = t.forward_event(packet).unwrap();
    assert_eq!(out, input);
    assert_eq!(t.xdg_wm_base_global, None);
    assert_eq!(t.registry_id, Some(2));
}

#[test]
fn oversized_forward_is_refused() {
    let mut t = Tracker::new();
    let packet = Packet { id: 9, opcode: 0, body: vec![0; 65528] };
    assert_eq!(
        t.forward_request(packet, &config(false)),
        Err(RelayError::Frame(FrameError::TooLong))
    );
}
