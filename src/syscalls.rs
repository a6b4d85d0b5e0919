use vstd::prelude::*;

verus! {

/// The five words of a message to or from the system process.
#[derive(Clone, Copy, PartialEq, Eq, Debug, Structural)]
pub struct Body(pub u64, pub u64, pub u64, pub u64, pub u64);

/// Largest byte count a single copy request may carry.
pub const MAX_COPY_BYTES: u64 = 128;

/// The order of the colour channels in a pixel.
#[derive(Clone, Copy, PartialEq, Eq, Debug, Structural)]
pub enum BitsOrder {
    RedGreenBlueReserved,
    BlueGreenRedReserved,
}

/// The kind of a request to the system process.
#[derive(Clone, Copy, PartialEq, Eq, Debug, Structural)]
pub enum Ty {
    Noop,
    CopyDataFrom,
    GetScreenInfo,
}

impl BitsOrder {
    pub open spec fn from_u64_spec(n: u64) -> Option<BitsOrder> {
        if n == 0 {
            Some(BitsOrder::RedGreenBlueReserved)
        } else if n == 1 {
            Some(BitsOrder::BlueGreenRedReserved)
        } else {
            None
        }
    }

    /// The variant whose position is `n`.
    pub fn from_u64(n: u64) -> (r: Option<BitsOrder>)
        ensures
            r == Self::from_u64_spec(n),
    {
        if n == 0 {
            Some(BitsOrder::RedGreenBlueReserved)
        } else if n == 1 {
            Some(BitsOrder::BlueGreenRedReserved)
        } else {
            None
        }
    }
}

impl Ty {
    pub open spec fn code_spec(self) -> u64 {
        match self {
            Ty::Noop => 0,
            Ty::CopyDataFrom => 1,
            Ty::GetScreenInfo => 2,
        }
    }

    /// The word that names this kind in a message.
    pub fn code(self) -> (r: u64)
        ensures
            r == self.code_spec(),
    {
        match self {
            Ty::Noop => 0,
            Ty::CopyDataFrom => 1,
            Ty::GetScreenInfo => 2,
        }
    }

    /// The kind whose word is `n`.
    pub fn from_u64(n: u64) -> (r: Option<Ty>)
        ensures
            match r {
                None => n > 2,
                Some(t) => t.code_spec() == n,
            },
    {
        if n == 0 {
            Some(Ty::Noop)
        } else if n == 1 {
            Some(Ty::CopyDataFrom)
        } else if n == 2 {
            Some(Ty::GetScreenInfo)
        } else {
            None
        }
    }
}

/// The geometry and pixel format of the screen.
#[derive(Clone, Copy, PartialEq, Eq, Debug, Structural)]
pub struct ScreenInfo {
    resolution_x: u32,
    resolution_y: u32,
    bits_order: BitsOrder,
    scan_line_width: u32,
}

impl ScreenInfo {
    pub closed spec fn resolution_x_spec(&self) -> u32 {
        self.resolution_x
    }

    pub closed spec fn resolution_y_spec(&self) -> u32 {
        self.resolution_y
    }

    pub closed spec fn bits_order_spec(&self) -> BitsOrder {
        self.bits_order
    }

    pub closed spec fn scan_line_width_spec(&self) -> u32 {
        self.scan_line_width
    }

    pub fn resolution_x(&self) -> (r: u32)
        ensures
            r == self.resolution_x_spec(),
    {
        self.resolution_x
    }

    pub fn resolution_y(&self) -> (r: u32)
        ensures
            r == self.resolution_y_spec(),
    {
        self.resolution_y
    }

    pub fn bits_order(&self) -> (r: BitsOrder)
        ensures
            r == self.bits_order_spec(),
    {
        self.bits_order
    }

    pub fn scan_line_width(&self) -> (r: u32)
        ensures
            r == self.scan_line_width_spec(),
    {
        self.scan_line_width
    }

    /// Reads the reply to a screen query: resolutions, channel order and scan-line width in
    /// the first four words. `None` when a size does not fit 32 bits or the order is unknown.
    pub fn from_reply(reply: Body) -> (r: Option<ScreenInfo>)
        ensures
            r is Some <==> (reply.0 <= u32::MAX && reply.1 <= u32::MAX
                && BitsOrder::from_u64_spec(reply.2) is Some && reply.3 <= u32::MAX),
            r matches Some(s) ==> s.resolution_x_spec() == reply.0 && s.resolution_y_spec()
                == reply.1 && Some(s.bits_order_spec()) == BitsOrder::from_u64_spec(reply.2)
                && s.scan_line_width_spec() == reply.3,
    {
        if reply.0 > u32::MAX as u64 || reply.1 > u32::MAX as u64 || reply.3 > u32::MAX as u64 {
            return None;
        }
        match BitsOrder::from_u64(reply.2) {
            None => None,
            Some(bits_order) => Some(
                ScreenInfo {
                    resolution_x: reply.0 as u32,
                    resolution_y: reply.1 as u32,
                    bits_order,
                    scan_line_width: reply.3 as u32,
                },
            ),
        }
    }
}

/// The request that does nothing.
pub fn noop_body() -> (r: Body)
    ensures
        r == Body(Ty::Noop.code_spec(), 0, 0, 0, 0),
{
    Body(Ty::Noop.code(), 0, 0, 0, 0)
}

/// The request for the screen's geometry.
pub fn get_screen_info_body() -> (r: Body)
    ensures
        r == Body(Ty::GetScreenInfo.code_spec(), 0, 0, 0, 0),
{
    Body(Ty::GetScreenInfo.code(), 0, 0, 0, 0)
}

/// The request to copy `bytes` bytes from `src_addr` of process `src_pid` to `dst_addr`;
/// `None` unless `bytes` is below `MAX_COPY_BYTES`.
pub fn copy_data_from_body(src_pid: u64, src_addr: u64, dst_addr: u64, bytes: u64) -> (r: Option<Body>)
    ensures
        r is Some <==> bytes < MAX_COPY_BYTES,
        r matches Some(b) ==> b == Body(Ty::CopyDataFrom.code_spec(), src_pid, src_addr, dst_addr, bytes),
{
    if bytes >= MAX_COPY_BYTES {
        None
    } else {
        Some(Body(Ty::CopyDataFrom.code(), src_pid, src_addr, dst_addr, bytes))
    }
}

/// Whether a reply is the empty acknowledgement.
pub fn is_empty_reply(reply: Body) -> (r: bool)
    ensures
        r == (reply == Body(0, 0, 0, 0, 0)),
{
    reply.0 == 0 && reply.1 == 0 && reply.2 == 0 && reply.3 == 0 && reply.4 == 0
}

} // verus!
