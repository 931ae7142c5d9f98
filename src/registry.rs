//! Discovery of the server's advertised globals and of the two that a window
//! needs: the surface compositor and the windowing shell.
use vstd::prelude::*;

verus! {

/// Protocol version requested when binding either required global.
pub const BIND_VERSION: u32 = 1;

/// Interface identifier of the surface-compositor global, "wl_compositor".
pub open spec fn compositor_interface() -> Seq<u8> {
    seq![119u8, 108, 95, 99, 111, 109, 112, 111, 115, 105, 116, 111, 114]
}

/// Interface identifier of the windowing-shell global, "xdg_wm_base".
pub open spec fn shell_interface() -> Seq<u8> {
    seq![120u8, 100, 103, 95, 119, 109, 95, 98, 97, 115, 101]
}

/// The globals this library binds.
#[derive(Clone, Copy, Debug, PartialEq, Eq, Structural)]
pub enum GlobalKind {
    Compositor,
    Shell,
}

/// Which required global, if any, an interface identifier names.
pub open spec fn kind_of(interface: Seq<u8>) -> Option<GlobalKind> {
    if interface == compositor_interface() {
        Some(GlobalKind::Compositor)
    } else if interface == shell_interface() {
        Some(GlobalKind::Shell)
    } else {
        None
    }
}

/// A request to bind the global announced under `name`.
#[derive(Clone, Copy, Debug, PartialEq, Eq, Structural)]
pub struct BindRequest {
    pub kind: GlobalKind,
    pub name: u32,
    pub version: u32,
}

/// Compares two byte strings.
pub fn bytes_equal(a: &[u8], b: &[u8]) -> (r: bool)
    ensures
        r == (a@ == b@),
{
    if a.len() != b.len() {
        return false;
    }
    let mut i: usize = 0;
    while i < a.len()
        invariant
            a@.len() == b@.len(),
            i <= a@.len(),
            forall|k: int| 0 <= k < i ==> a@[k] == b@[k],
        decreases a@.len() - i,
    {
        if a[i] != b[i] {
            return false;
        }
        i = i + 1;
    }
    assert(a@ =~= b@);
    true
}

/// Classifies an advertised interface identifier (its bytes, without a
/// terminating zero).
pub fn interface_kind(interface: &[u8]) -> (r: Option<GlobalKind>)
    ensures
        r == kind_of(interface@),
{
    let compositor = vec![119u8, 108, 95, 99, 111, 109, 112, 111, 115, 105, 116, 111, 114];
    assert(compositor@ =~= compositor_interface());
    if bytes_equal(interface, compositor.as_slice()) {
        return Some(GlobalKind::Compositor);
    }
    let shell = vec![120u8, 100, 103, 95, 119, 109, 95, 98, 97, 115, 101];
    assert(shell@ =~= shell_interface());
    if bytes_equal(interface, shell.as_slice()) {
        return Some(GlobalKind::Shell);
    }
    None
}

/// Decides what to do with one global advertisement: bind it at
/// `BIND_VERSION` when it is one of the two required globals, ignore it
/// otherwise. The advertised version is not consulted.
pub fn registry_add_object(name: u32, interface: &[u8], version: u32) -> (r: Option<BindRequest>)
    ensures
        r == match kind_of(interface@) {
            Some(kind) => Some(BindRequest { kind, name, version: BIND_VERSION }),
            None => None,
        },
{
    match interface_kind(interface) {
        Some(kind) => Some(BindRequest { kind, name, version: BIND_VERSION }),
        None => None,
    }
}

} // verus!
