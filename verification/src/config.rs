//! Building a match configuration: the board dimensions, the connect-length
//! and the player symbols, together with the validation that the interactive
//! prompts rely on. Every rejected input leaves the configuration unchanged.

use vstd::prelude::*;

verus! {

/// Errors reported while a match is being configured.
#[derive(Clone, Copy, Debug, PartialEq, Eq, Structural)]
pub enum ConfigError {
    /// The entered integer lies outside the range the prompt allows.
    InvalidInteger,
    /// The chosen symbol is already claimed by an earlier player.
    SymbolConflict,
    /// The symbol input is empty or longer than a single character.
    InvalidSymbolLength,
}

/// All symbols in `s` are pairwise distinct.
pub open spec fn distinct_chars(s: Seq<char>) -> bool {
    forall|i: int, j: int| 0 <= i < j < s.len() ==> s[i] != s[j]
}

/// No symbol in `s` is the space character, which encodes an empty cell.
pub open spec fn no_blank(s: Seq<char>) -> bool {
    forall|i: int| 0 <= i < s.len() ==> s[i] != ' '
}

/// The full parameter set of one match, fixed before the first move.
pub struct MatchConfig {
    pub rows: usize,
    pub cols: usize,
    pub connect_length: usize,
    pub players: Vec<char>,
}

impl MatchConfig {
    /// The bounds that configuration enforces before a match may start:
    /// at least a 3-by-3 board, a connect-length of at least 3 that fits in
    /// both dimensions, and at least two distinct, non-blank player symbols.
    pub open spec fn wf(self) -> bool {
        &&& 3 <= self.rows
        &&& 3 <= self.cols
        &&& 3 <= self.connect_length <= self.rows
        &&& self.connect_length <= self.cols
        &&& self.rows * self.cols <= usize::MAX
        &&& 2 <= self.players@.len()
        &&& distinct_chars(self.players@)
        &&& no_blank(self.players@)
    }
}

/// The default preset: players X and O on a 6-row, 7-column board, with
/// four in a row needed to win.
pub fn build_default() -> (cfg: MatchConfig)
    ensures
        cfg.wf(),
        cfg.rows == 6,
        cfg.cols == 7,
        cfg.connect_length == 4,
        cfg.players@ =~= seq!['X', 'O'],
{
    let mut players: Vec<char> = Vec::new();
    players.push('X');
    players.push('O');
    MatchConfig { rows: 6, cols: 7, connect_length: 4, players }
}

/// Whether a requested connect-length fits the board: at least 3, and no
/// larger than either dimension. Configuration re-prompts until this holds.
pub fn connect_length_ok(rows: usize, cols: usize, connect_length: usize) -> (r: bool)
    ensures
        r == (3 <= connect_length && connect_length <= rows && connect_length <= cols),
{
    3 <= connect_length && connect_length <= rows && connect_length <= cols
}

/// One step of symbol registration. `input` is the trimmed line the player
/// typed, as characters; because it is trimmed, a single character is never
/// a space (the space encodes an empty cell). Exactly one fresh character is
/// accepted and appended; an empty or multi-character input, or a symbol an
/// earlier player already claimed, is rejected and `players` is unchanged.
/// Registration therefore keeps the player symbols pairwise distinct.
#[verifier::loop_isolation(false)]
pub fn register_symbol(players: &mut Vec<char>, input: &Vec<char>) -> (r: Result<
    (),
    ConfigError,
>)
    requires
        input@.len() == 1 ==> input@[0] != ' ',
    ensures
        r == Ok::<(), ConfigError>(()) <==> (input@.len() == 1 && !old(players)@.contains(
            input@[0],
        )),
        r == Ok::<(), ConfigError>(()) ==> final(players)@ == old(players)@.push(input@[0]),
        r == Err::<(), ConfigError>(ConfigError::InvalidSymbolLength) <==> input@.len() != 1,
        r == Err::<(), ConfigError>(ConfigError::SymbolConflict) <==> (input@.len() == 1 && old(
            players,
        )@.contains(input@[0])),
        r is Err ==> final(players)@ == old(players)@,
        distinct_chars(old(players)@) && r is Ok ==> distinct_chars(final(players)@),
        no_blank(old(players)@) && r is Ok ==> no_blank(final(players)@),
{
    if input.len() != 1 {
        return Err(ConfigError::InvalidSymbolLength);
    }
    let chosen = input[0];
    let mut i: usize = 0;
    while i < players.len()
        invariant
            i <= players@.len(),
            *players == *old(players),
            forall|k: int| 0 <= k < i ==> players@[k] != chosen,
        decreases players@.len() - i,
    {
        if players[i] == chosen {
            proof {
                assert(old(players)@.contains(chosen));
            }
            return Err(ConfigError::SymbolConflict);
        }
        i += 1;
    }
    proof {
        assert(!players@.contains(chosen));
    }
    players.push(chosen);
    proof {
        if distinct_chars(old(players)@) {
            assert forall|a: int, b: int| 0 <= a < b < players@.len() implies players@[a]
                != players@[b] by {
                if b == players@.len() - 1 {
                    assert(players@[a] == old(players)@[a]);
                }
            }
        }
    }
    Ok(())
}

/// The upper bound an integer prompt enforces: the caller's bound where one
/// is given, and 1000 otherwise.
pub open spec fn prompt_upper_bound(max: Option<i32>) -> int {
    match max {
        Some(m) => m as int,
        None => 1000,
    }
}

/// The range test behind every integer prompt: `value` is accepted exactly
/// when it lies in `[min, max]`, a missing `max` standing for 1000.
pub fn choice_in_range(value: i32, min: i32, max: Option<i32>) -> (r: Result<i32, ConfigError>)
    ensures
        min <= value && value <= prompt_upper_bound(max) ==> r == Ok::<i32, ConfigError>(value),
        !(min <= value && value <= prompt_upper_bound(max)) ==> r == Err::<i32, ConfigError>(
            ConfigError::InvalidInteger,
        ),
{
    let upper = match max {
        Some(m) => m,
        None => 1000,
    };
    if value < min || value > upper {
        Err(ConfigError::InvalidInteger)
    } else {
        Ok(value)
    }
}

} // verus!
