//! Framebuffer configuration choice for the rendering context.
use vstd::prelude::*;

verus! {

/// Attribute key for the red channel's width in bits.
pub const RED_SIZE: i32 = 0x3024;
/// Attribute key for the green channel's width in bits.
pub const GREEN_SIZE: i32 = 0x3023;
/// Attribute key for the blue channel's width in bits.
pub const BLUE_SIZE: i32 = 0x3022;
/// Sentinel that ends an attribute list.
pub const ATTRIB_NONE: i32 = 0x3038;

/// Widths in bits of the three color channels of a framebuffer.
#[derive(Clone, Copy, Debug, PartialEq, Eq, Structural)]
pub struct ChannelSizes {
    pub red: i32,
    pub green: i32,
    pub blue: i32,
}

impl ChannelSizes {
    /// True when every channel of `self` is at least as wide as requested.
    pub open spec fn satisfies(self, requested: ChannelSizes) -> bool {
        self.red >= requested.red && self.green >= requested.green && self.blue >= requested.blue
    }

    /// Executable form of `satisfies`.
    pub fn covers(&self, requested: &ChannelSizes) -> (r: bool)
        ensures
            r == self.satisfies(*requested),
    {
        self.red >= requested.red && self.green >= requested.green && self.blue >= requested.blue
    }
}

/// Reads the status of the rendering display's initialization: zero is
/// failure, any other value success.
pub fn initialization_result(status: u32) -> (r: Result<(), crate::error::BootstrapError>)
    ensures
        status == 0 ==> r == Err::<(), crate::error::BootstrapError>(
            crate::error::BootstrapError::RenderInitFailed,
        ),
        status != 0 ==> r is Ok,
{
    if status == 0 {
        Err(crate::error::BootstrapError::RenderInitFailed)
    } else {
        Ok(())
    }
}

/// The channel widths a window asks for: eight bits each.
pub fn default_request() -> (r: ChannelSizes)
    ensures
        r == (ChannelSizes { red: 8, green: 8, blue: 8 }),
{
    ChannelSizes { red: 8, green: 8, blue: 8 }
}

/// The attribute list handed to the configuration query: each channel key
/// followed by its width, ended by the sentinel.
pub open spec fn attribute_list(requested: ChannelSizes) -> Seq<i32> {
    seq![RED_SIZE, requested.red, GREEN_SIZE, requested.green, BLUE_SIZE, requested.blue, ATTRIB_NONE]
}

/// Builds `attribute_list(requested)`.
pub fn config_attributes(requested: &ChannelSizes) -> (r: Vec<i32>)
    ensures
        r@ == attribute_list(*requested),
{
    let r = vec![
        RED_SIZE,
        requested.red,
        GREEN_SIZE,
        requested.green,
        BLUE_SIZE,
        requested.blue,
        ATTRIB_NONE,
    ];
    assert(r@ =~= attribute_list(*requested));
    r
}

/// True when `i` is the first offered configuration that satisfies the request.
pub open spec fn is_first_match(offered: Seq<ChannelSizes>, requested: ChannelSizes, i: int) -> bool {
    &&& 0 <= i < offered.len()
    &&& offered[i].satisfies(requested)
    &&& forall|k: int| 0 <= k < i ==> !offered[k].satisfies(requested)
}

/// Picks, among configurations listed in the implementation's order of
/// preference, the first whose channels are at least as wide as requested.
/// Fails when none is.
pub fn choose_config(offered: &Vec<ChannelSizes>, requested: &ChannelSizes) -> (r: Result<
    usize,
    crate::error::BootstrapError,
>)
    ensures
        match r {
            Ok(i) => is_first_match(offered@, *requested, i as int),
            Err(e) => e == crate::error::BootstrapError::NoMatchingConfig && forall|k: int|
                0 <= k < offered@.len() ==> !offered@[k].satisfies(*requested),
        },
{
    let mut i: usize = 0;
    while i < offered.len()
        invariant
            i <= offered@.len(),
            forall|k: int| 0 <= k < i ==> !offered@[k].satisfies(*requested),
        decreases offered@.len() - i,
    {
        if offered[i].covers(requested) {
            return Ok(i);
        }
        i = i + 1;
    }
    Err(crate::error::BootstrapError::NoMatchingConfig)
}

} // verus!
