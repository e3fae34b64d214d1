//! The per-canvas rights model: who may read, write, bypass moderation,
//! and manage a canvas.

use vstd::prelude::*;

verus! {

/// A user's right on one canvas, ordered by power:
/// `R` read-only, `W` writer (gated by moderation), `V` verified writer
/// (unaffected by moderation), `M` moderator, `O` owner.
#[derive(PartialEq, Eq, Structural, Clone, Copy, Debug)]
pub enum Right {
    R,
    W,
    V,
    M,
    O,
}

/// A submitted event is persisted and fanned out exactly when the sender's
/// right allows writing under the canvas's current moderation flag:
/// `V`, `M` and `O` always may; `W` only while the canvas is not moderated;
/// `R` never may (write attempts by readers are dropped silently).
pub open spec fn spec_may_write(r: Right, moderated: bool) -> bool {
    match r {
        Right::R => false,
        Right::W => !moderated,
        Right::V => true,
        Right::M => true,
        Right::O => true,
    }
}

/// Whether a right admits the one-shot management command.
pub open spec fn spec_is_manager(r: Right) -> bool {
    r == Right::M || r == Right::O
}

impl Right {
    /// The single-letter form stored in the database and sent on the wire.
    pub open spec fn spec_letter(self) -> Seq<char> {
        match self {
            Right::R => "R"@,
            Right::W => "W"@,
            Right::V => "V"@,
            Right::M => "M"@,
            Right::O => "O"@,
        }
    }

    /// Parse the database's single-letter encoding of a right.
    pub open spec fn spec_of_letter(s: Seq<char>) -> Option<Right> {
        if s == "R"@ {
            Some(Right::R)
        } else if s == "W"@ {
            Some(Right::W)
        } else if s == "V"@ {
            Some(Right::V)
        } else if s == "M"@ {
            Some(Right::M)
        } else if s == "O"@ {
            Some(Right::O)
        } else {
            None
        }
    }

    pub fn letter(self) -> (r: &'static str)
        ensures
            r@ == self.spec_letter(),
    {
        match self {
            Right::R => "R",
            Right::W => "W",
            Right::V => "V",
            Right::M => "M",
            Right::O => "O",
        }
    }

    pub fn of_letter(s: &str) -> (r: Option<Right>)
        ensures
            r == Right::spec_of_letter(s@),
    {
        if crate::text::str_eq(s, "R") {
            Some(Right::R)
        } else if crate::text::str_eq(s, "W") {
            Some(Right::W)
        } else if crate::text::str_eq(s, "V") {
            Some(Right::V)
        } else if crate::text::str_eq(s, "M") {
            Some(Right::M)
        } else if crate::text::str_eq(s, "O") {
            Some(Right::O)
        } else {
            None
        }
    }
}

/// Round trip: the letter of a right parses back to that right.
pub proof fn lemma_letter_round_trip(r: Right)
    ensures
        Right::spec_of_letter(r.spec_letter()) == Some(r),
{
    reveal_strlit("R");
    reveal_strlit("W");
    reveal_strlit("V");
    reveal_strlit("M");
    reveal_strlit("O");
    assert("R"@.len() == 1 && "R"@[0] == 'R');
    assert("W"@.len() == 1 && "W"@[0] == 'W');
    assert("V"@.len() == 1 && "V"@[0] == 'V');
    assert("M"@.len() == 1 && "M"@[0] == 'M');
    assert("O"@.len() == 1 && "O"@[0] == 'O');
}

pub fn may_write(r: Right, moderated: bool) -> (b: bool)
    ensures
        b == spec_may_write(r, moderated),
{
    match r {
        Right::R => false,
        Right::W => !moderated,
        Right::V => true,
        Right::M => true,
        Right::O => true,
    }
}

pub fn is_manager(r: Right) -> (b: bool)
    ensures
        b == spec_is_manager(r),
{
    match r {
        Right::M => true,
        Right::O => true,
        _ => false,
    }
}

} // verus!
