//! A textual command front end: short command words, possibly several of them
//! separated by commas, are mapped to player moves and sent to the game
//! master.
use vstd::prelude::*;

use crate::game::tootris::Communique;
use crate::game::tootris::GameBroadcaster;
use crate::game::tootris::GameUpdateReceiver;
use crate::game::tootris::Master2UICommunique;
use crate::game::tootris::PlayerMove;
use crate::game::tootris::UI2MasterCommunique;
use crate::game::tootris::UI2RenderCommunique;
use crate::game::tootris::UIHandler;
use crate::outside::channel_send;
use vstd::string::StringSliceAdditionalSpecFns;

verus! {

/// The byte value of the comma that separates command words.
pub open spec fn comma() -> u8 {
    44
}

/// Whether [lo, hi) delimits one comma-separated word of `csv`: it borders on
/// commas or the ends, and holds no comma itself.
pub open spec fn is_csv_segment(csv: Seq<u8>, lo: int, hi: int) -> bool {
    &&& 0 <= lo <= hi <= csv.len()
    &&& (lo == 0 || csv[lo - 1] == comma())
    &&& (hi == csv.len() || csv[hi] == comma())
    &&& forall|k: int| lo <= k < hi ==> csv[k] != comma()
}

/// Whether `cmd` equals one of the comma-separated words of `csv`.
pub open spec fn matches_csv(cmd: Seq<u8>, csv: Seq<u8>) -> bool {
    exists|lo: int, hi: int| is_csv_segment(csv, lo, hi) && #[trigger] csv.subrange(lo, hi) == cmd
}

/// The player move a command word stands for, if any.
pub open spec fn move_for(cmd: Seq<u8>) -> Option<PlayerMove> {
    if matches_csv(cmd, "l,left".spec_bytes()) {
        Some(PlayerMove::StepLeft)
    } else if matches_csv(cmd, "r,right".spec_bytes()) {
        Some(PlayerMove::StepRight)
    } else if matches_csv(cmd, "D,rd,rodo,frodo".spec_bytes()) {
        Some(PlayerMove::OrientDown)
    } else if matches_csv(cmd, "u,U,up".spec_bytes()) {
        Some(PlayerMove::OrientUp)
    } else if matches_csv(cmd, "L,rl,role".spec_bytes()) {
        Some(PlayerMove::OrientLeft)
    } else if matches_csv(cmd, "R,rr,rori".spec_bytes()) {
        Some(PlayerMove::OrientRight)
    } else {
        None
    }
}

/// Whether the byte range [clo, chi) of `cmd` equals one of the
/// comma-separated words of `csv`.
#[verifier::loop_isolation(false)]
fn seg_matches(cmd: &[u8], clo: usize, chi: usize, csv: &str) -> (r: bool)
    requires
        clo <= chi <= cmd@.len(),
    ensures
        r == matches_csv(cmd@.subrange(clo as int, chi as int), csv.spec_bytes()),
{
    let sb: &[u8] = csv.as_bytes();
    let ghost sv = csv.spec_bytes();
    let ghost target = cmd@.subrange(clo as int, chi as int);
    let seg_len = chi - clo;
    let mut lo: usize = 0;
    while lo <= sb.len()
        invariant
            0 <= lo <= sv.len(),
            lo == 0 || (1 <= lo && sv[lo as int - 1] == comma()),
            forall|l2: int, h2: int|
                is_csv_segment(sv, l2, h2) && l2 < lo ==> #[trigger] sv.subrange(l2, h2) != target,
        decreases sv.len() + 1 - lo,
    {
        let mut hi: usize = lo;
        while hi < sb.len() && sb[hi] != 44
            invariant
                lo <= hi <= sv.len(),
                forall|k: int| lo <= k < hi ==> sv[k] != comma(),
            decreases sv.len() - hi,
        {
            hi = hi + 1;
        }
        proof {
            assert(is_csv_segment(sv, lo as int, hi as int));
        }
        let mut equal = (hi - lo) == seg_len;
        if equal {
            let mut i: usize = 0;
            while i < seg_len
                invariant
                    0 <= i <= seg_len,
                    hi - lo == seg_len,
                    equal == (forall|j: int| 0 <= j < i ==> sv[lo + j] == target[j]),
                decreases seg_len - i,
            {
                proof {
                    assert(target[i as int] == cmd@[clo + i]);
                }
                let cur = sb[lo + i] == cmd[clo + i];
                equal = equal && cur;
                i = i + 1;
            }
            proof {
                if equal {
                    assert(sv.subrange(lo as int, hi as int) =~= target);
                } else {
                    let j = choose|j: int| 0 <= j < seg_len && sv[lo + j] != target[j];
                    assert(sv.subrange(lo as int, hi as int)[j] != target[j]);
                }
            }
        } else {
            proof {
                assert(sv.subrange(lo as int, hi as int).len() != target.len());
            }
        }
        if equal {
            proof {
                assert(sv.subrange(lo as int, hi as int) == target);
                assert(matches_csv(target, sv));
            }
            return true;
        }
        proof {
            // The word starting at lo ends exactly at hi, and no other word
            // starts between lo and hi, so everything before hi + 1 is ruled
            // out.
            assert forall|l2: int, h2: int|
                is_csv_segment(sv, l2, h2) && l2 < hi + 1 implies #[trigger] sv.subrange(l2, h2)
                != target by {
                if l2 >= lo {
                    assert(l2 == lo) by {
                        if l2 > lo {
                            assert(sv[l2 - 1] == comma());
                            assert(l2 - 1 < hi);
                        }
                    }
                    assert(h2 == hi) by {
                        if h2 < hi {
                            assert(sv[h2] == comma());
                        }
                        if h2 > hi {
                            assert(hi < sv.len());
                            assert(sv[hi as int] != comma());
                            assert(sv[hi as int] == comma());
                        }
                    }
                }
            }
        }
        if hi == sb.len() {
            proof {
                if matches_csv(target, sv) {
                    let (l2, h2) = choose|l2: int, h2: int|
                        is_csv_segment(sv, l2, h2) && #[trigger] sv.subrange(l2, h2) == target;
                    assert(l2 < hi + 1);
                }
            }
            return false;
        }
        lo = hi + 1;
    }
    proof {
        assert(false);
    }
    false
}

/// The player move the byte range [lo, hi) of `bytes` stands for, if any.
fn move_for_range(bytes: &[u8], lo: usize, hi: usize) -> (r: Option<PlayerMove>)
    requires
        lo <= hi <= bytes@.len(),
    ensures
        r == move_for(bytes@.subrange(lo as int, hi as int)),
{
    if seg_matches(bytes, lo, hi, "l,left") {
        Some(PlayerMove::StepLeft)
    } else if seg_matches(bytes, lo, hi, "r,right") {
        Some(PlayerMove::StepRight)
    } else if seg_matches(bytes, lo, hi, "D,rd,rodo,frodo") {
        Some(PlayerMove::OrientDown)
    } else if seg_matches(bytes, lo, hi, "u,U,up") {
        Some(PlayerMove::OrientUp)
    } else if seg_matches(bytes, lo, hi, "L,rl,role") {
        Some(PlayerMove::OrientLeft)
    } else if seg_matches(bytes, lo, hi, "R,rr,rori") {
        Some(PlayerMove::OrientRight)
    } else {
        None
    }
}

/// A plain textual front end for driving the game master: commands arrive as
/// words, are resolved to player moves, and go out on the master's queue.
pub struct SimpleCommandUi {
    pub master_receiver: Option<GameUpdateReceiver<Master2UICommunique>>,
    pub master_broadcaster: Option<GameBroadcaster<UI2MasterCommunique>>,
    pub command_queue: Vec<PlayerMove>,
}

impl SimpleCommandUi {
    /// Whether the command word equals one of the comma-separated words of
    /// `csv`.
    pub fn command_matches_csv(command: &str, csv: &str) -> (r: bool)
        ensures
            r == matches_csv(command.spec_bytes(), csv.spec_bytes()),
    {
        let cb = command.as_bytes();
        let r = seg_matches(cb, 0, cb.len(), csv);
        proof {
            assert(cb@.subrange(0, cb@.len() as int) =~= command.spec_bytes());
        }
        r
    }

    /// The player move a single command word stands for, if any.
    pub fn command_to_player_move(command: &str) -> (r: Option<PlayerMove>)
        ensures
            r == move_for(command.spec_bytes()),
    {
        if Self::command_matches_csv(command, "l,left") {
            Some(PlayerMove::StepLeft)
        } else if Self::command_matches_csv(command, "r,right") {
            Some(PlayerMove::StepRight)
        } else if Self::command_matches_csv(command, "D,rd,rodo,frodo") {
            Some(PlayerMove::OrientDown)
        } else if Self::command_matches_csv(command, "u,U,up") {
            Some(PlayerMove::OrientUp)
        } else if Self::command_matches_csv(command, "L,rl,role") {
            Some(PlayerMove::OrientLeft)
        } else if Self::command_matches_csv(command, "R,rr,rori") {
            Some(PlayerMove::OrientRight)
        } else {
            None
        }
    }

    /// Queues one player move toward the master; without a channel the move
    /// is dropped.
    fn send_input_to_master(&mut self, mov: PlayerMove)
        ensures
            *final(self) == *old(self),
    {
        if let Some(broadcaster) = &self.master_broadcaster {
            let failed = channel_send(
                &broadcaster.channel_out,
                UI2MasterCommunique {
                    comm_type: Communique::Update,
                    command: None,
                    player_move: Some(mov),
                },
            );
            let _ = failed;
        }
    }

    /// Splits the command on commas and sends the move each recognised word
    /// stands for.
    #[verifier::loop_isolation(false)]
    pub fn submit_command(&mut self, command: &str)
        ensures
            *final(self) == *old(self),
    {
        let bytes = command.as_bytes();
        let mut lo: usize = 0;
        while lo <= bytes.len()
            invariant
                *self == *old(self),
                0 <= lo <= bytes@.len(),
            decreases bytes@.len() + 1 - lo,
        {
            let mut hi: usize = lo;
            while hi < bytes.len() && bytes[hi] != 44
                invariant
                    lo <= hi <= bytes@.len(),
                decreases bytes@.len() - hi,
            {
                hi = hi + 1;
            }
            if let Some(mov) = move_for_range(bytes, lo, hi) {
                self.send_input_to_master(mov);
            }
            if hi == bytes.len() {
                return;
            }
            lo = hi + 1;
        }
    }
}

impl UIHandler for SimpleCommandUi {
    /// Drains the queued moves toward the master.
    fn handle_ui(&mut self) -> bool {
        let mut i: usize = 0;
        while i < self.command_queue.len()
            invariant
                *self == *old(self),
                0 <= i <= self.command_queue@.len(),
            decreases self.command_queue@.len() - i,
        {
            let mov = self.command_queue[i];
            self.send_input_to_master(mov);
            i = i + 1;
        }
        self.command_queue.clear();
        true
    }

    fn give_master_receiver(&mut self, receiver: GameUpdateReceiver<Master2UICommunique>) {
        self.master_receiver = Some(receiver);
    }

    fn give_master_broadcaster(&mut self, broadcaster: GameBroadcaster<UI2MasterCommunique>) {
        self.master_broadcaster = Some(broadcaster);
    }

    fn give_render_broadcaster(&mut self, broadcaster: GameBroadcaster<UI2RenderCommunique>) {
        let _ = broadcaster;
    }
}

} // verus!
