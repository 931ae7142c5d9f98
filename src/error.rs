//! Failures that end a window bootstrap.
use vstd::prelude::*;

verus! {

/// The kind of object a creation call was expected to hand back.
#[derive(Clone, Copy, Debug, PartialEq, Eq, Structural)]
pub enum HandleKind {
    Surface,
    ShellSurface,
    Toplevel,
    NativeWindow,
    Drawable,
    Context,
}

/// Why a window could not be brought up. None of these is retried: each
/// points at an unsupported or misconfigured host.
#[derive(Clone, Copy, Debug, PartialEq, Eq, Structural)]
pub enum BootstrapError {
    /// No display server could be reached.
    NoDisplay,
    /// The server never advertised a surface compositor.
    NoCompositor,
    /// The server never advertised a windowing shell.
    NoShell,
    /// The rendering-context display could not be initialized.
    RenderInitFailed,
    /// No framebuffer configuration offers the requested channel widths.
    NoMatchingConfig,
    /// A creation call handed back a null handle.
    NullHandle(HandleKind),
}

impl BootstrapError {
    /// Human-readable diagnostic naming what is missing.
    pub fn diagnostic(&self) -> (r: &'static str)
        ensures
            *self == BootstrapError::NoDisplay ==> r@ == "cannot reach display server"@,
            *self == BootstrapError::NoCompositor ==> r@ == "no compositor"@,
            *self == BootstrapError::NoShell ==> r@ == "no windowing shell"@,
            *self == BootstrapError::RenderInitFailed ==> r@ == "cannot initialize the rendering display"@,
            *self == BootstrapError::NoMatchingConfig ==> r@ == "no matching framebuffer configuration"@,
            *self is NullHandle ==> r@ == "display server returned a null handle"@,
    {
        match self {
            BootstrapError::NoDisplay => "cannot reach display server",
            BootstrapError::NoCompositor => "no compositor",
            BootstrapError::NoShell => "no windowing shell",
            BootstrapError::RenderInitFailed => "cannot initialize the rendering display",
            BootstrapError::NoMatchingConfig => "no matching framebuffer configuration",
            BootstrapError::NullHandle(_) => "display server returned a null handle",
        }
    }
}

} // verus!
