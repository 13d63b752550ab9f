use vstd::prelude::*;

verus! {

/// What std's `str::to_lowercase` makes of a text.
pub uninterp spec fn lower_of(s: Seq<char>) -> Seq<char>;

/// Relies on `str::to_lowercase`: the result depends on the characters alone.
#[verifier::external_body]
fn lowercase(s: &str) -> (r: String)
    ensures
        r@ == lower_of(s@),
{
    s.to_lowercase()
}

/// What the player typed at a prompt.
#[derive(Debug)]
pub enum Command {
    /// The request to leave the game at once.
    Exit,
    /// A guess, one symbol per character.
    Guess(Vec<char>),
}

/// The words that end the game.
pub open spec fn is_exit_word(s: Seq<char>) -> bool {
    s == seq!['e', 'x', 'i', 't'] || s == seq!['q', 'u', 'i', 't']
}

/// What a lowered line means: the exit request for an exit word, else
/// the guess made of its characters.
pub open spec fn command_matches(r: Command, lowered: Seq<char>) -> bool {
    match r {
        Command::Exit => is_exit_word(lowered),
        Command::Guess(v) => !is_exit_word(lowered) && v@ == lowered,
    }
}

/// Reads an already lowered line as a command.
pub fn classify_line(lowered: &str) -> (r: Command)
    ensures
        command_matches(r, lowered@),
{
    let n = lowered.unicode_len();
    let mut chars: Vec<char> = Vec::new();
    let mut i: usize = 0;
    while i < n
        invariant
            n == lowered@.len(),
            i <= n,
            chars@ == lowered@.take(i as int),
        decreases n - i,
    {
        chars.push(lowered.get_char(i));
        i += 1;
        assert(chars@ =~= lowered@.take(i as int));
    }
    assert(chars@ =~= lowered@);
    let exit = chars.len() == 4 && ((chars[0] == 'e' && chars[1] == 'x' && chars[2] == 'i'
        && chars[3] == 't') || (chars[0] == 'q' && chars[1] == 'u' && chars[2] == 'i' && chars[3]
        == 't'));
    if exit {
        if chars[0] == 'e' {
            assert(chars@ =~= seq!['e', 'x', 'i', 't']);
        } else {
            assert(chars@ =~= seq!['q', 'u', 'i', 't']);
        }
        Command::Exit
    } else {
        assert(!is_exit_word(chars@)) by {
            if chars@ == seq!['e', 'x', 'i', 't'] {
                assert(chars@[0] == 'e' && chars@[1] == 'x' && chars@[2] == 'i');
            }
            if chars@ == seq!['q', 'u', 'i', 't'] {
                assert(chars@[0] == 'q' && chars@[1] == 'u' && chars@[2] == 'i');
            }
        }
        Command::Guess(chars)
    }
}

/// Reads a raw line as a command, ignoring case.
pub fn read_command(line: &str) -> (r: Command)
    ensures
        command_matches(r, lower_of(line@)),
{
    let lowered = lowercase(line);
    classify_line(lowered.as_str())
}

} // verus!
