//! Per-connection object tracking, and the rewrite of `xdg_toplevel.set_app_id`.
//!
//! A proxy runs two loops per client connection, sharing one [`Tracker`]. The
//! client-to-server loop hands each request to [`Tracker::forward_request`],
//! the server-to-client loop each event to [`Tracker::forward_event`], and
//! each sends on the bytes they return.
use std::collections::HashMap;
use vstd::prelude::*;
use vstd::utf8::*;
use crate::proto::{
    append_bytes, encode_string, lemma_encode_utf8_concat, lemma_frame_verbatim,
    lemma_string_bytes_round_trip, lemma_wire_length, opt_view, packet_at, read_arg_string,
    read_arg_uint, string_arg_at, u16_at, u32_at, wire, write_arg_bytes, write_packet, ArgError,
    FrameError, Packet,
};

verus! {

broadcast use vstd::std_specs::hash::group_hash_axioms;

/// The newest version of the xdg-shell interfaces whose requests are understood.
pub const MAX_XDG_VERSION: u32 = 6;

/// Interface of a tracked object.
#[derive(Debug, Clone, Copy, PartialEq, Eq, Structural)]
pub enum ObjType {
    Display,
    Registry,
    XdgWmBase { ver: u32 },
    XdgSurface { ver: u32 },
    XdgToplevel { ver: u32 },
}

/// Why a message stops the connection.
#[derive(Debug, Clone, Copy, PartialEq, Eq, Structural)]
pub enum RelayError {
    /// An argument the tracker needs could not be decoded.
    Arg(ArgError),
    /// An xdg-shell object announced a version above `MAX_XDG_VERSION`.
    UnsupportedVersion(u32),
    /// The rewritten application identifier does not fit a string argument.
    TooLong,
    /// The message to forward could not be framed.
    Frame(FrameError),
}

/// How application identifiers are rewritten.
pub struct Config {
    /// The identifier every top-level window presents.
    pub app_id: String,
    /// Put `app_id` in front of the client's identifier instead of replacing it.
    pub prefix: bool,
}

/// What one connection knows of its objects.
pub struct Tracker {
    /// Object id to interface, for the objects that matter to the rewrite.
    pub objects: HashMap<u32, ObjType>,
    /// Global name and version that the compositor gave `xdg_wm_base`.
    pub xdg_wm_base_global: Option<(u32, u32)>,
    /// Id of the registry whose events are watched for globals.
    pub registry_id: Option<u32>,
}

/// The `uint` argument at `pos`.
pub open spec fn uint_arg_at(b: Seq<u8>, pos: int) -> Result<u32, ArgError> {
    if pos + 4 <= b.len() {
        Ok(u32_at(b, pos))
    } else {
        Err(ArgError::Uint)
    }
}

/// Arguments `(uint, string, uint)` at the start of `b`, as in
/// `wl_registry.global`, and the position after them.
pub open spec fn global_args(b: Seq<u8>) -> Result<(u32, Option<Seq<char>>, u32, int), ArgError> {
    match uint_arg_at(b, 0) {
        Err(e) => Err(e),
        Ok(name) => match string_arg_at(b, 4) {
            Err(e) => Err(e),
            Ok((iface, p)) => match uint_arg_at(b, p) {
                Err(e) => Err(e),
                Ok(ver) => Ok((name, iface, ver, p + 4)),
            },
        },
    }
}

/// Global name, version and new object id of a `wl_registry.bind` request.
pub open spec fn bind_args(b: Seq<u8>) -> Result<(u32, u32, u32), ArgError> {
    match global_args(b) {
        Err(e) => Err(e),
        Ok((name, _iface, ver, p)) => match uint_arg_at(b, p) {
            Err(e) => Err(e),
            Ok(new_id) => Ok((name, ver, new_id)),
        },
    }
}

/// The identifier to send for a client that asked for `incoming`.
pub open spec fn new_app_id(app: Seq<char>, prefix: bool, incoming: Option<Seq<char>>) -> Seq<char> {
    if prefix {
        match incoming {
            Some(s) => app + s,
            None => app,
        }
    } else {
        app
    }
}

/// The object that a request creates, where it creates one that is tracked:
/// an interface for the id held by the first argument.
pub open spec fn child_of(t: ObjType, opcode: u16) -> Option<ObjType> {
    match t {
        ObjType::Display => if opcode == 1 {
            Some(ObjType::Registry)
        } else {
            None
        },
        ObjType::XdgWmBase { ver } => if opcode == 2 {
            Some(ObjType::XdgSurface { ver })
        } else {
            None
        },
        ObjType::XdgSurface { ver } => if opcode == 1 {
            Some(ObjType::XdgToplevel { ver })
        } else {
            None
        },
        _ => None,
    }
}

/// Version of an xdg-shell object.
pub open spec fn xdg_version(t: ObjType) -> Option<u32> {
    match t {
        ObjType::XdgWmBase { ver } => Some(ver),
        ObjType::XdgSurface { ver } => Some(ver),
        ObjType::XdgToplevel { ver } => Some(ver),
        _ => None,
    }
}

/// The object table and body after a request from the client, or why the
/// connection stops.
pub open spec fn request_step(
    objects: Map<u32, ObjType>,
    global: Option<(u32, u32)>,
    id: u32,
    opcode: u16,
    body: Seq<u8>,
    app: Seq<char>,
    prefix: bool,
) -> Result<(Map<u32, ObjType>, Seq<u8>), RelayError> {
    if !objects.contains_key(id) {
        Ok((objects, body))
    } else {
        let t = objects[id];
        if xdg_version(t) is Some && xdg_version(t)->Some_0 > MAX_XDG_VERSION {
            Err(RelayError::UnsupportedVersion(xdg_version(t)->Some_0))
        } else if t == ObjType::Registry && opcode == 0 {
            match bind_args(body) {
                Err(e) => Err(RelayError::Arg(e)),
                Ok((name, ver, new_id)) => if global matches Some((g, _)) && g == name {
                    Ok((objects.insert(new_id, ObjType::XdgWmBase { ver }), body))
                } else {
                    Ok((objects, body))
                },
            }
        } else if t is XdgToplevel && opcode == 3 {
            match string_arg_at(body, 0) {
                Err(e) => Err(RelayError::Arg(e)),
                Ok((incoming, _)) => {
                    let content = encode_utf8(new_app_id(app, prefix, incoming));
                    if content.len() + 4 > u32::MAX {
                        Err(RelayError::TooLong)
                    } else {
                        Ok((objects, encode_string(content)))
                    }
                },
            }
        } else {
            match child_of(t, opcode) {
                None => Ok((objects, body)),
                Some(c) => match uint_arg_at(body, 0) {
                    Err(e) => Err(RelayError::Arg(e)),
                    Ok(new_id) => Ok((objects.insert(new_id, c), body)),
                },
            }
        }
    }
}

/// A request is rewritten only where it is `set_app_id` on a tracked
/// `xdg_toplevel`.
pub open spec fn is_set_app_id(objects: Map<u32, ObjType>, id: u32, opcode: u16) -> bool {
    objects.contains_key(id) && objects[id] is XdgToplevel && opcode == 3
}

/// The object table, watched global and registry id after an event from the
/// compositor, or why the connection stops.
pub open spec fn event_step(
    objects: Map<u32, ObjType>,
    global: Option<(u32, u32)>,
    registry: Option<u32>,
    id: u32,
    opcode: u16,
    body: Seq<u8>,
) -> Result<(Map<u32, ObjType>, Option<(u32, u32)>, Option<u32>), RelayError> {
    let delete = id == 1 && opcode == 1;
    if delete && uint_arg_at(body, 0) is Err {
        Err(RelayError::Arg(ArgError::Uint))
    } else {
        let objects1 = if delete {
            objects.remove(uint_arg_at(body, 0)->Ok_0)
        } else {
            objects
        };
        let registry1 = if registry is None && objects1.contains_key(id) && objects1[id]
            == ObjType::Registry {
            Some(id)
        } else {
            registry
        };
        if registry1 == Some(id) && opcode == 0 {
            match global_args(body) {
                Err(e) => Err(RelayError::Arg(e)),
                Ok((name, iface, ver, _)) => {
                    let global1 = if global is None && iface == Some("xdg_wm_base"@) {
                        Some((name, ver))
                    } else {
                        global
                    };
                    Ok((objects1, global1, registry1))
                },
            }
        } else {
            Ok((objects1, global, registry1))
        }
    }
}

fn version_of(t: ObjType) -> (r: Option<u32>)
    ensures
        r == xdg_version(t),
{
    match t {
        ObjType::XdgWmBase { ver } => Some(ver),
        ObjType::XdgSurface { ver } => Some(ver),
        ObjType::XdgToplevel { ver } => Some(ver),
        _ => None,
    }
}

fn child(t: ObjType, opcode: u16) -> (r: Option<ObjType>)
    ensures
        r == child_of(t, opcode),
{
    match t {
        ObjType::Display => if opcode == 1 {
            Some(ObjType::Registry)
        } else {
            None
        },
        ObjType::XdgWmBase { ver } => if opcode == 2 {
            Some(ObjType::XdgSurface { ver })
        } else {
            None
        },
        ObjType::XdgSurface { ver } => if opcode == 1 {
            Some(ObjType::XdgToplevel { ver })
        } else {
            None
        },
        _ => None,
    }
}

/// The body of a `set_app_id` request whose identifier was `incoming`.
fn app_id_body(config: &Config, incoming: Option<String>) -> (r: Result<Vec<u8>, RelayError>)
    ensures
        ({
            let content = encode_utf8(new_app_id(config.app_id@, config.prefix, opt_view(incoming)));
            if content.len() + 4 > u32::MAX {
                r == Err::<Vec<u8>, RelayError>(RelayError::TooLong)
            } else {
                r matches Ok(b) && b@ == encode_string(content)
            }
        }),
{
    let mut content: Vec<u8> = Vec::new();
    append_bytes(&mut content, config.app_id.as_str().as_bytes());
    if config.prefix {
        match &incoming {
            Some(s) => {
                append_bytes(&mut content, s.as_str().as_bytes());
                proof {
                    lemma_encode_utf8_concat(config.app_id@, s@);
                }
            },
            None => {},
        }
    }
    assert(content@ =~= encode_utf8(new_app_id(config.app_id@, config.prefix, opt_view(incoming))));
    if content.len() > 0xffff_fffb {
        return Err(RelayError::TooLong);
    }
    let mut body: Vec<u8> = Vec::new();
    write_arg_bytes(&mut body, content.as_slice());
    assert(body@ =~= encode_string(content@));
    Ok(body)
}

impl Tracker {
    /// A fresh connection: only the display, at id 1, is known.
    pub fn new() -> (r: Tracker)
        ensures
            r.objects@ == map![1u32 => ObjType::Display],
            r.xdg_wm_base_global is None,
            r.registry_id is None,
    {
        let mut objects: HashMap<u32, ObjType> = HashMap::new();
        objects.insert(1, ObjType::Display);
        assert(objects@ =~= map![1u32 => ObjType::Display]);
        Tracker { objects, xdg_wm_base_global: None, registry_id: None }
    }

    /// Learns from a request of the client, and rewrites its body where it is
    /// `set_app_id` on a tracked `xdg_toplevel`. On an error nothing changes.
    pub fn on_request(&mut self, packet: &mut Packet, config: &Config) -> (r: Result<(), RelayError>)
        ensures
            match request_step(
                old(self).objects@,
                old(self).xdg_wm_base_global,
                old(packet).id,
                old(packet).opcode,
                old(packet).body@,
                config.app_id@,
                config.prefix,
            ) {
                Ok((objects, body)) => r is Ok && final(self).objects@ == objects
                    && final(packet).body@ == body,
                Err(e) => r == Err::<(), RelayError>(e) && final(self).objects@
                    == old(self).objects@ && final(packet).body@ == old(packet).body@,
            },
            final(self).xdg_wm_base_global == old(self).xdg_wm_base_global,
            final(self).registry_id == old(self).registry_id,
            final(packet).id == old(packet).id,
            final(packet).opcode == old(packet).opcode,
    {
        let t = match self.objects.get(&packet.id) {
            None => return Ok(()),
            Some(t) => *t,
        };
        match version_of(t) {
            Some(ver) => if ver > MAX_XDG_VERSION {
                return Err(RelayError::UnsupportedVersion(ver));
            },
            None => {},
        }
        match t {
            ObjType::Registry => {
                if packet.opcode != 0 {
                    return Ok(());
                }
                let mut p: usize = 0;
                let name = match read_arg_uint(packet.body.as_slice(), &mut p) {
                    Ok(v) => v,
                    Err(e) => return Err(RelayError::Arg(e)),
                };
                match read_arg_string(packet.body.as_slice(), &mut p) {
                    Ok(_) => {},
                    Err(e) => return Err(RelayError::Arg(e)),
                }
                let ver = match read_arg_uint(packet.body.as_slice(), &mut p) {
                    Ok(v) => v,
                    Err(e) => return Err(RelayError::Arg(e)),
                };
                let new_id = match read_arg_uint(packet.body.as_slice(), &mut p) {
                    Ok(v) => v,
                    Err(e) => return Err(RelayError::Arg(e)),
                };
                match self.xdg_wm_base_global {
                    Some((g, _)) => if g == name {
                        self.objects.insert(new_id, ObjType::XdgWmBase { ver });
                    },
                    None => {},
                }
                Ok(())
            },
            ObjType::XdgToplevel { .. } => {
                if packet.opcode != 3 {
                    return Ok(());
                }
                let mut p: usize = 0;
                let incoming = match read_arg_string(packet.body.as_slice(), &mut p) {
                    Ok(v) => v,
                    Err(e) => return Err(RelayError::Arg(e)),
                };
                match app_id_body(config, incoming) {
                    Ok(body) => {
                        packet.body = body;
                        Ok(())
                    },
                    Err(e) => Err(e),
                }
            },
            _ => match child(t, packet.opcode) {
                None => Ok(()),
                Some(c) => {
                    let mut p: usize = 0;
                    let new_id = match read_arg_uint(packet.body.as_slice(), &mut p) {
                        Ok(v) => v,
                        Err(e) => return Err(RelayError::Arg(e)),
                    };
                    self.objects.insert(new_id, c);
                    Ok(())
                },
            },
        }
    }

    /// Learns from an event of the compositor: `wl_display.delete_id` drops
    /// an object, and `wl_registry.global` for `xdg_wm_base` is remembered
    /// the first time. On an error nothing changes.
    pub fn on_event(&mut self, packet: &Packet) -> (r: Result<(), RelayError>)
        ensures
            match event_step(
                old(self).objects@,
                old(self).xdg_wm_base_global,
                old(self).registry_id,
                packet.id,
                packet.opcode,
                packet.body@,
            ) {
                Ok((objects, global, registry)) => r is Ok && final(self).objects@ == objects
                    && final(self).xdg_wm_base_global == global && final(self).registry_id
                    == registry,
                Err(e) => r == Err::<(), RelayError>(e) && final(self).objects@
                    == old(self).objects@ && final(self).xdg_wm_base_global
                    == old(self).xdg_wm_base_global && final(self).registry_id
                    == old(self).registry_id,
            },
    {
        if packet.id == 1 && packet.opcode == 1 {
            let mut p: usize = 0;
            let gone = match read_arg_uint(packet.body.as_slice(), &mut p) {
                Ok(v) => v,
                Err(e) => return Err(RelayError::Arg(e)),
            };
            self.objects.remove(&gone);
        }
        let registry = match self.registry_id {
            Some(r) => Some(r),
            None => match self.objects.get(&packet.id) {
                Some(t) => match *t {
                    ObjType::Registry => Some(packet.id),
                    _ => None,
                },
                None => None,
            },
        };
        let watched = match registry {
            Some(r) => r == packet.id,
            None => false,
        };
        if watched && packet.opcode == 0 {
            let mut p: usize = 0;
            let name = match read_arg_uint(packet.body.as_slice(), &mut p) {
                Ok(v) => v,
                Err(e) => return Err(RelayError::Arg(e)),
            };
            let iface = match read_arg_string(packet.body.as_slice(), &mut p) {
                Ok(v) => v,
                Err(e) => return Err(RelayError::Arg(e)),
            };
            let ver = match read_arg_uint(packet.body.as_slice(), &mut p) {
                Ok(v) => v,
                Err(e) => return Err(RelayError::Arg(e)),
            };
            match (&self.xdg_wm_base_global, &iface) {
                (None, Some(s)) => {
                    let wanted = "xdg_wm_base".to_string();
                    if *s == wanted {
                        self.xdg_wm_base_global = Some((name, ver));
                    }
                },
                _ => {},
            }
        }
        self.registry_id = registry;
        Ok(())
    }

    /// Handles a request of the client and frames what goes on to the
    /// compositor. On an error nothing changes.
    pub fn forward_request(&mut self, packet: Packet, config: &Config) -> (r: Result<Vec<u8>, RelayError>)
        ensures
            match request_step(
                old(self).objects@,
                old(self).xdg_wm_base_global,
                packet.id,
                packet.opcode,
                packet.body@,
                config.app_id@,
                config.prefix,
            ) {
                Ok((objects, body)) => if body.len() + 8 <= u16::MAX {
                    r matches Ok(out) && out@ == wire(packet.id, packet.opcode, body)
                        && final(self).objects@ == objects
                } else {
                    r == Err::<Vec<u8>, RelayError>(RelayError::Frame(FrameError::TooLong))
                        && final(self).objects@ == old(self).objects@
                },
                Err(e) => r == Err::<Vec<u8>, RelayError>(e) && final(self).objects@
                    == old(self).objects@,
            },
            final(self).xdg_wm_base_global == old(self).xdg_wm_base_global,
            final(self).registry_id == old(self).registry_id,
    {
        let mut packet = packet;
        let ghost before = self.objects@;
        let mut next = Tracker {
            objects: self.objects.clone(),
            xdg_wm_base_global: self.xdg_wm_base_global,
            registry_id: self.registry_id,
        };
        match next.on_request(&mut packet, config) {
            Ok(()) => {},
            Err(e) => return Err(e),
        }
        let mut out: Vec<u8> = Vec::new();
        match write_packet(&mut out, &packet) {
            Ok(()) => {},
            Err(e) => return Err(RelayError::Frame(e)),
        }
        *self = next;
        Ok(out)
    }

    /// Handles an event of the compositor and frames what goes on to the
    /// client, unchanged. On an error nothing changes.
    pub fn forward_event(&mut self, packet: Packet) -> (r: Result<Vec<u8>, RelayError>)
        ensures
            packet.body@.len() + 8 > u16::MAX ==> r == Err::<Vec<u8>, RelayError>(
                RelayError::Frame(FrameError::TooLong),
            ) && final(self).objects@ == old(self).objects@ && final(self).xdg_wm_base_global
                == old(self).xdg_wm_base_global && final(self).registry_id
                == old(self).registry_id,
            packet.body@.len() + 8 <= u16::MAX ==> match event_step(
                old(self).objects@,
                old(self).xdg_wm_base_global,
                old(self).registry_id,
                packet.id,
                packet.opcode,
                packet.body@,
            ) {
                Ok((objects, global, registry)) => r matches Ok(out) && out@ == wire(
                    packet.id,
                    packet.opcode,
                    packet.body@,
                ) && final(self).objects@ == objects && final(self).xdg_wm_base_global == global
                    && final(self).registry_id == registry,
                Err(e) => r == Err::<Vec<u8>, RelayError>(e) && final(self).objects@
                    == old(self).objects@ && final(self).xdg_wm_base_global
                    == old(self).xdg_wm_base_global && final(self).registry_id
                    == old(self).registry_id,
            },
    {
        let mut out: Vec<u8> = Vec::new();
        match write_packet(&mut out, &packet) {
            Ok(()) => {},
            Err(e) => return Err(RelayError::Frame(e)),
        }
        match self.on_event(&packet) {
            Ok(()) => Ok(out),
            Err(e) => Err(e),
        }
    }
}

} // verus!

verus! {

/// A request that is not `set_app_id` on a tracked `xdg_toplevel` goes on
/// with its body unchanged.
pub proof fn lemma_passthrough(
    objects: Map<u32, ObjType>,
    global: Option<(u32, u32)>,
    id: u32,
    opcode: u16,
    body: Seq<u8>,
    app: Seq<char>,
    prefix: bool,
)
    requires
        !is_set_app_id(objects, id, opcode),
    ensures
        request_step(objects, global, id, opcode, body, app, prefix) matches Ok((_, b)) ==> b
            == body,
{
}

/// A request that is not `set_app_id` on a tracked `xdg_toplevel` is framed
/// again as the very bytes it was read from.
pub proof fn lemma_request_verbatim(
    objects: Map<u32, ObjType>,
    global: Option<(u32, u32)>,
    data: Seq<u8>,
    pos: int,
    app: Seq<char>,
    prefix: bool,
)
    requires
        0 <= pos,
        packet_at(data, pos) is Ok,
        packet_at(data, pos)->Ok_0 is Some,
        ({
            let (id, opcode, body) = packet_at(data, pos)->Ok_0->Some_0.0;
            !is_set_app_id(objects, id, opcode) && request_step(
                objects,
                global,
                id,
                opcode,
                body,
                app,
                prefix,
            ) is Ok
        }),
    ensures
        ({
            let (id, opcode, body) = packet_at(data, pos)->Ok_0->Some_0.0;
            let end = packet_at(data, pos)->Ok_0->Some_0.1;
            let sent = request_step(objects, global, id, opcode, body, app, prefix)->Ok_0.1;
            wire(id, opcode, sent) == data.subrange(pos, end)
        }),
{
    let (id, opcode, body) = packet_at(data, pos)->Ok_0->Some_0.0;
    lemma_passthrough(objects, global, id, opcode, body, app, prefix);
    lemma_frame_verbatim(data, pos);
}

/// The body sent for `set_app_id` on a tracked `xdg_toplevel` is one string
/// argument: the configured identifier, followed by the client's own (empty
/// when it sent the null string) where `prefix` is set.
pub proof fn lemma_app_id_rewrite(
    objects: Map<u32, ObjType>,
    global: Option<(u32, u32)>,
    id: u32,
    opcode: u16,
    body: Seq<u8>,
    app: Seq<char>,
    prefix: bool,
)
    requires
        is_set_app_id(objects, id, opcode),
        request_step(objects, global, id, opcode, body, app, prefix) is Ok,
    ensures
        ({
            let b = request_step(objects, global, id, opcode, body, app, prefix)->Ok_0.1;
            let incoming = string_arg_at(body, 0)->Ok_0.0;
            string_arg_at(b, 0) == Ok::<(Option<Seq<char>>, int), ArgError>(
                (Some(new_app_id(app, prefix, incoming)), b.len() as int),
            )
        }),
{
    broadcast use encode_utf8_valid_utf8, encode_utf8_decode_utf8;

    let incoming = string_arg_at(body, 0)->Ok_0.0;
    let content = encode_utf8(new_app_id(app, prefix, incoming));
    lemma_string_bytes_round_trip(content, seq![]);
    assert(encode_string(content) + seq![] =~= encode_string(content));
}

/// The length in the header of a forwarded request is its body's length plus
/// eight, and a multiple of four where the client's body was.
pub proof fn lemma_header_length(
    objects: Map<u32, ObjType>,
    global: Option<(u32, u32)>,
    id: u32,
    opcode: u16,
    body: Seq<u8>,
    app: Seq<char>,
    prefix: bool,
)
    requires
        body.len() % 4 == 0,
        request_step(objects, global, id, opcode, body, app, prefix) is Ok,
        request_step(objects, global, id, opcode, body, app, prefix)->Ok_0.1.len() + 8
            <= u16::MAX,
    ensures
        ({
            let b = request_step(objects, global, id, opcode, body, app, prefix)->Ok_0.1;
            u16_at(wire(id, opcode, b), 6) == b.len() + 8 && (b.len() + 8) % 4 == 0
        }),
{
    let b = request_step(objects, global, id, opcode, body, app, prefix)->Ok_0.1;
    lemma_wire_length(id, opcode, b);
    if is_set_app_id(objects, id, opcode) {
        let incoming = string_arg_at(body, 0)->Ok_0.0;
        let content = encode_utf8(new_app_id(app, prefix, incoming));
        lemma_string_bytes_round_trip(content, seq![]);
        assert(b == encode_string(content));
    } else {
        lemma_passthrough(objects, global, id, opcode, body, app, prefix);
    }
    assert(b.len() % 4 == 0);
}

/// `wl_display.delete_id` removes exactly the id it names from the table.
pub proof fn lemma_delete_id(
    objects: Map<u32, ObjType>,
    global: Option<(u32, u32)>,
    registry: Option<u32>,
    body: Seq<u8>,
)
    requires
        body.len() >= 4,
    ensures
        event_step(objects, global, registry, 1, 1, body) matches Ok((o, g, _)) && o
            == objects.remove(u32_at(body, 0)) && g == global,
{
}

} // verus!
