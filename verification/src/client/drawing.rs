//! What a frame draws and what it tells the server.

use crate::client::sections::SectionPos;
use vstd::prelude::*;

verus! {

/// How many frames go by from one word on the player's position to the next.
pub const POSITION_INTERVAL: u32 = 3;

/// Whether the server is told in this frame where the player is.
pub open spec fn is_position_frame(frame_count: int) -> bool {
    frame_count % (POSITION_INTERVAL as int) == 0
}

/// Whether the server is told in this frame where the player is.
pub fn sends_position(frame_count: u32) -> (sends: bool)
    ensures
        sends == is_position_frame(frame_count as int),
        sends <==> exists|k: int| frame_count == #[trigger] (3 * k),
{
    let sends: bool = frame_count % POSITION_INTERVAL == 0;
    proof {
        let k = frame_count as int / 3;
        if sends {
            assert(frame_count == 3 * k);
        }
    }
    sends
}

/// Of frames in a row, as many as the interval says, just one tells the server where the
/// player is.
pub proof fn position_is_sent_in_turn(frame_count: int)
    requires
        0 <= frame_count,
    ensures
        exists|i: int| 0 <= i < POSITION_INTERVAL && #[trigger] is_position_frame(frame_count + i),
        forall|i: int, j: int|
            0 <= i < j < POSITION_INTERVAL && #[trigger] is_position_frame(frame_count + i)
                ==> !#[trigger] is_position_frame(frame_count + j),
{
    let i = (3 - frame_count % 3) % 3;
    assert(is_position_frame(frame_count + i));
}

/// Whether the middle of a section has coordinates.
pub open spec fn has_middle(p: SectionPos) -> bool {
    &&& i32::MIN <= p.x * 16 && p.x * 16 + 8 <= i32::MAX
    &&& i32::MIN <= p.y * 16 <= i32::MAX
    &&& i32::MIN <= p.z * 16 && p.z * 16 + 8 <= i32::MAX
}

/// The first block of a section. A section above the top of the world is not drawn, and has
/// none.
pub fn section_origin(p: SectionPos) -> (origin: Option<(i32, i32, i32)>)
    requires
        has_middle(p),
    ensures
        origin == if p.y >= 16 {
            None::<(i32, i32, i32)>
        } else {
            Some(((p.x * 16) as i32, (p.y * 16) as i32, (p.z * 16) as i32))
        },
        origin is None <==> p.y >= 16,
        origin matches Some((x, y, z)) ==> x % 16 == 0 && x / 16 == p.x && y % 16 == 0 && y / 16
            == p.y && z % 16 == 0 && z / 16 == p.z,
{
    if p.y >= 16 {
        None
    } else {
        Some((p.x * 16, p.y * 16, p.z * 16))
    }
}

/// How many sections a frame has drawn, of how many that have a mesh.
#[derive(Debug, Clone, Copy, PartialEq, Eq, Structural)]
pub struct DrawCount {
    pub rendered: i32,
    pub total: i32,
}

impl DrawCount {
    /// No more sections are drawn than there are.
    pub open spec fn wf(self) -> bool {
        0 <= self.rendered <= self.total
    }

    /// The counts of a new frame.
    pub fn new() -> (count: DrawCount)
        ensures
            count.wf(),
            count.rendered == 0,
            count.total == 0,
    {
        DrawCount { rendered: 0, total: 0 }
    }

    /// Counts a section, and says whether it is drawn: it is near enough, and in view.
    pub fn section(&mut self, near: bool, in_view: bool) -> (drawn: bool)
        requires
            old(self).wf(),
            old(self).total < i32::MAX,
        ensures
            drawn == (near && in_view),
            final(self).wf(),
            final(self).rendered == old(self).rendered + if drawn {
                1int
            } else {
                0int
            },
            final(self).total == old(self).total + 1,
            drawn ==> near && in_view,
            drawn ==> final(self).total - final(self).rendered == old(self).total - old(
                self,
            ).rendered,
            !drawn ==> final(self).rendered == old(self).rendered && (!near || !in_view),
    {
        let drawn: bool = near && in_view;
        if drawn {
            self.rendered = self.rendered + 1;
        }
        self.total = self.total + 1;
        drawn
    }
}

} // verus!
