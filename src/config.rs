//! Fixed settings of the server: team palette, join codes, map queues, versions.

use vstd::prelude::*;

verus! {

/// Number of entries in the team palette: the most teams a room can have.
pub const TEAM_COUNT: usize = 6;

/// Most random join codes drawn before creating a room gives up.
pub const MAX_JOINCODE_DRAWS: usize = 1000;

/// Length of a join code.
pub const JOINCODE_LENGTH: usize = 6;

/// Number of characters a join code is drawn from.
pub const JOINCODE_ALPHABET_SIZE: usize = 10;

/// Number of maps each automatic queue is restocked towards.
pub const MAP_QUEUE_SIZE: usize = 10;

/// Hard upper bound on the length of each automatic queue.
pub const MAP_QUEUE_CAPACITY: usize = 30;

/// How long a map request waits for its queue, in milliseconds.
pub const MAP_FETCH_TIMEOUT_MS: u64 = 20000;

/// Pause between two looks at a queue that is not yet full enough, in milliseconds.
pub const MAP_POLL_INTERVAL_MS: u64 = 100;

/// How long a disconnected player's slot is kept, in milliseconds.
pub const LINGER_WINDOW_MS: u64 = 60000;

/// Longest frame payload that is accepted, in bytes.
pub const MAX_FRAME_LENGTH: usize = 1048576;

/// Oldest client version that is served: major part.
pub const MINIMUM_MAJOR: i32 = 3;

/// Oldest client version that is served: minor part.
pub const MINIMUM_MINOR: i32 = 0;

/// Name of palette entry `i`.
pub open spec fn palette_name(i: int) -> Seq<char> {
    if i == 0 {
        seq!['R', 'e', 'd']
    } else if i == 1 {
        seq!['G', 'r', 'e', 'e', 'n']
    } else if i == 2 {
        seq!['B', 'l', 'u', 'e']
    } else if i == 3 {
        seq!['C', 'y', 'a', 'n']
    } else if i == 4 {
        seq!['P', 'i', 'n', 'k']
    } else {
        seq!['Y', 'e', 'l', 'l', 'o', 'w']
    }
}

/// Colour of palette entry `i`, as six hex digits.
pub open spec fn palette_color(i: int) -> Seq<char> {
    if i == 0 {
        seq!['D', '8', '4', '3', '1', '5']
    } else if i == 1 {
        seq!['8', 'B', 'C', '3', '4', 'A']
    } else if i == 2 {
        seq!['0', '0', '9', '5', 'F', 'F']
    } else if i == 3 {
        seq!['4', 'D', 'D', '0', 'E', '1']
    } else if i == 4 {
        seq!['D', '8', '1', 'B', '6', '0']
    } else {
        seq!['F', 'F', 'F', 'F', '0', '0']
    }
}

/// Different palette entries have different names.
pub proof fn lemma_palette_names_distinct(i: int, j: int)
    requires
        0 <= i < TEAM_COUNT,
        0 <= j < TEAM_COUNT,
        i != j,
    ensures
        palette_name(i) != palette_name(j),
{
    assert(palette_name(i)[0] != palette_name(j)[0]);
}

/// The name of palette entry `i`.
pub fn team_name(i: usize) -> (r: String)
    requires
        i < TEAM_COUNT,
    ensures
        r@ == palette_name(i as int),
{
    let s: &str = if i == 0 {
        "Red"
    } else if i == 1 {
        "Green"
    } else if i == 2 {
        "Blue"
    } else if i == 3 {
        "Cyan"
    } else if i == 4 {
        "Pink"
    } else {
        "Yellow"
    };
    proof {
        reveal_strlit("Red");
        reveal_strlit("Green");
        reveal_strlit("Blue");
        reveal_strlit("Cyan");
        reveal_strlit("Pink");
        reveal_strlit("Yellow");
    }
    let r = String::from_str(s);
    proof {
        if i == 0 { assert(r@ =~= palette_name(0)); }
        if i == 1 { assert(r@ =~= palette_name(1)); }
        if i == 2 { assert(r@ =~= palette_name(2)); }
        if i == 3 { assert(r@ =~= palette_name(3)); }
        if i == 4 { assert(r@ =~= palette_name(4)); }
        if i == 5 { assert(r@ =~= palette_name(5)); }
    }
    r
}

/// The colour text of palette entry `i`.
pub fn team_color_hex(i: usize) -> (r: &'static str)
    requires
        i < TEAM_COUNT,
    ensures
        r@ == palette_color(i as int),
{
    let s: &str = if i == 0 {
        "D84315"
    } else if i == 1 {
        "8BC34A"
    } else if i == 2 {
        "0095FF"
    } else if i == 3 {
        "4DD0E1"
    } else if i == 4 {
        "D81B60"
    } else {
        "FFFF00"
    };
    proof {
        reveal_strlit("D84315");
        reveal_strlit("8BC34A");
        reveal_strlit("0095FF");
        reveal_strlit("4DD0E1");
        reveal_strlit("D81B60");
        reveal_strlit("FFFF00");
        if i == 0 { assert(s@ =~= palette_color(0)); }
        if i == 1 { assert(s@ =~= palette_color(1)); }
        if i == 2 { assert(s@ =~= palette_color(2)); }
        if i == 3 { assert(s@ =~= palette_color(3)); }
        if i == 4 { assert(s@ =~= palette_color(4)); }
        if i == 5 { assert(s@ =~= palette_color(5)); }
    }
    s
}

/// The `i`-th character of the join-code alphabet: the decimal digits.
pub fn joincode_char(i: usize) -> (r: char)
    requires
        i < JOINCODE_ALPHABET_SIZE,
    ensures
        r == joincode_alphabet(i as int),
{
    ((48 + i) as u8) as char
}

pub open spec fn joincode_alphabet(i: int) -> char {
    ((48 + i) as u8) as char
}

} // verus!
