//! The ordered lifecycle levels at which filters and callbacks are
//! evaluated for a tracked connection.

use vstd::prelude::*;

verus! {

/// An evaluation point in a connection's life.  Levels are totally
/// ordered: `L4FirstPacket < L4InPayload < L7OnDisc < L7EndHdrs <
/// L4Terminated`.  A connection visits them in non-decreasing order;
/// `L4InPayload` may repeat, every other level fires at most once.
#[derive(Clone, Copy, Debug, PartialEq, Eq, Structural)]
pub enum Level {
    /// The first packet of a previously unseen five-tuple.
    L4FirstPacket,
    /// A subsequent packet carrying payload, before protocol discovery.
    L4InPayload,
    /// The application-layer protocol has been identified.
    L7OnDisc,
    /// Header-level session data (SNI, host, ...) is final.
    L7EndHdrs,
    /// Connection close or idle timeout; the last evaluation point.
    L4Terminated,
}

impl Level {
    /// Position of the level in the total order.
    pub open spec fn ord(self) -> int {
        match self {
            Level::L4FirstPacket => 0,
            Level::L4InPayload => 1,
            Level::L7OnDisc => 2,
            Level::L7EndHdrs => 3,
            Level::L4Terminated => 4,
        }
    }

    /// The position in the total order, as a machine integer.
    pub fn index(self) -> (r: u8)
        ensures
            r as int == self.ord(),
    {
        match self {
            Level::L4FirstPacket => 0,
            Level::L4InPayload => 1,
            Level::L7OnDisc => 2,
            Level::L7EndHdrs => 3,
            Level::L4Terminated => 4,
        }
    }

    /// Whether `self` comes no later than `other` in the lifecycle order.
    pub fn le(self, other: Level) -> (r: bool)
        ensures
            r == (self.ord() <= other.ord()),
    {
        self.index() <= other.index()
    }

    /// The level at position `i` of the total order.
    pub fn from_index(i: u8) -> (r: Option<Level>)
        ensures
            i <= 4 ==> (r matches Some(l) && l.ord() == i as int),
            i > 4 ==> r is None,
    {
        match i {
            0 => Some(Level::L4FirstPacket),
            1 => Some(Level::L4InPayload),
            2 => Some(Level::L7OnDisc),
            3 => Some(Level::L7EndHdrs),
            4 => Some(Level::L4Terminated),
            _ => None,
        }
    }
}

} // verus!
