//! Commands embedded in move comments, and the clock annotation.
//!
//! A comment may carry commands of the form `[%name param,param,...]`: a
//! leading `[%`, a name, a space, a comma-separated parameter list, and a
//! closing `]`.  The one command the classifiers read is `clk`, whose single
//! parameter is a clock reading `H:MM:SS`.

use vstd::prelude::*;

use crate::bytes::{
    bytes_eq, find, find_spec, lemma_find_spec_first, match_at, parse_u16, parse_u8, split,
    split_once, split_once_spec, split_spec, sub_vec, u16_of, u8_of, views_of,
};

verus! {

/// The bytes `[%` that open a command.
pub open spec fn open_tag() -> Seq<u8> {
    seq!['[' as u8, '%' as u8]
}

/// The bytes `]` that close a command.
pub open spec fn close_tag() -> Seq<u8> {
    seq![']' as u8]
}

/// The name of the clock command.
pub open spec fn clk_name() -> Seq<u8> {
    seq!['c' as u8, 'l' as u8, 'k' as u8]
}

/// The comma-separated parameters of a command, handed out in order.
pub struct Params {
    parts: Vec<Vec<u8>>,
}

impl Params {
    /// The parameters not yet handed out.
    pub closed spec fn remaining(&self) -> Seq<Seq<u8>> {
        views_of(self.parts@)
    }

    /// Hands out the next parameter, if one is left.
    pub fn next(&mut self) -> (r: Option<Vec<u8>>)
        ensures
            match r {
                Some(p) => old(self).remaining().len() > 0 && p@ == old(self).remaining()[0]
                    && final(self).remaining() == old(self).remaining().drop_first(),
                None => old(self).remaining().len() == 0 && final(self).remaining()
                    == old(self).remaining(),
            },
    {
        if self.parts.len() > 0 {
            let p = self.parts.remove(0);
            proof {
                assert(views_of(self.parts@) =~= views_of(old(self).parts@).drop_first());
            }
            Some(p)
        } else {
            None
        }
    }
}

/// One `[%name params]` command drawn out of a move comment.
pub struct RawCommand {
    pub name: Vec<u8>,
    pub params: Params,
}

/// What reading `name params` out of the inside of a command yields: the
/// bytes before the first space, and the bytes after it split on commas.
/// A command without a space is malformed.
pub open spec fn command_of(value: Seq<u8>) -> Option<(Seq<u8>, Seq<Seq<u8>>)> {
    match split_once_spec(value, seq![' ' as u8]) {
        Some(p) => Some((p.0, split_spec(p.1, ',' as u8))),
        None => None,
    }
}

impl RawCommand {
    /// Reads the inside of a command, `name params`, splitting the
    /// parameters on commas.
    pub fn try_from(value: &[u8]) -> (r: Option<RawCommand>)
        ensures
            match r {
                Some(cmd) => command_of(value@) == Some((cmd.name@, cmd.params.remaining())),
                None => command_of(value@) is None,
            },
    {
        let space: [u8; 1] = [' ' as u8];
        proof {
            assert(space@ =~= seq![' ' as u8]);
        }
        match split_once(value, space.as_slice()) {
            Some((name, rest)) => {
                let parts = split(rest.as_slice(), ',' as u8);
                Some(RawCommand { name, params: Params { parts } })
            },
            None => None,
        }
    }
}

/// What one step of the command iterator does to a comment: the command it
/// yields, if any, and the bytes the iterator keeps.  A comment without a
/// further `[%`, or without a closing `]` after it, yields nothing and is
/// kept as it is; a malformed command (no space inside) yields nothing but
/// is consumed up to its closing `]`.
pub open spec fn next_step(c: Seq<u8>) -> (Option<(Seq<u8>, Seq<Seq<u8>>)>, Seq<u8>) {
    match find_spec(c, open_tag()) {
        Some(s) => match find_spec(c.subrange(s, c.len() as int), close_tag()) {
            Some(e0) => {
                let rest = c.subrange(s + e0, c.len() as int);
                (command_of(c.subrange(s + 2, s + e0)), rest)
            },
            None => (None, c),
        },
        None => (None, c),
    }
}

/// The commands of a comment, in order, stopping at the first malformed
/// command; this is all a traversal of the comment can see.
pub open spec fn commands_of(c: Seq<u8>) -> Seq<(Seq<u8>, Seq<Seq<u8>>)>
    decreases c.len(),
{
    let (cmd, rest) = next_step(c);
    match cmd {
        Some(sp) => if rest.len() < c.len() {
            seq![sp] + commands_of(rest)
        } else {
            seq![sp]
        },
        None => Seq::empty(),
    }
}

/// When a command's `[%` is found at `s` and the next `]` at offset `e0`
/// after it, the closing tag lies at least two bytes in, past the opening
/// tag itself, and within the comment.
pub proof fn lemma_tags_bound(c: Seq<u8>, s: int, e0: int)
    requires
        find_spec(c, open_tag()) == Some(s),
        find_spec(c.subrange(s, c.len() as int), close_tag()) == Some(e0),
    ensures
        0 <= s,
        2 <= e0,
        s + e0 <= c.len(),
{
    lemma_find_spec_first(c, open_tag());
    assert(match_at(c, open_tag(), s));
    let inner = c.subrange(s, c.len() as int);
    lemma_find_spec_first(inner, close_tag());
    assert(match_at(inner, close_tag(), e0));
    assert(inner[0] == '[' as u8 && inner[1] == '%' as u8) by {
        assert(c.subrange(s, s + 2) == open_tag());
        assert(c.subrange(s, s + 2)[0] == c[s]);
        assert(inner[0] == c[s]);
        assert(c.subrange(s, s + 2)[1] == c[s + 1]);
        assert(inner[1] == c[s + 1]);
    }
    assert(inner.subrange(e0, e0 + 1)[0] == inner[e0]);
    assert(inner[e0] == ']' as u8);
}

/// A step that yields a command always shrinks the comment, so the
/// traversal ends.
pub proof fn lemma_next_step_shrinks(c: Seq<u8>)
    ensures
        next_step(c).0 is Some ==> next_step(c).1.len() < c.len(),
{
    if next_step(c).0 is Some {
        let s = find_spec(c, open_tag())->Some_0;
        let e0 = find_spec(c.subrange(s, c.len() as int), close_tag())->Some_0;
        lemma_tags_bound(c, s, e0);
    }
}

/// Walks a comment and hands out its commands one at a time.
pub struct RawCommandIterator {
    pub comment: Vec<u8>,
}

impl RawCommandIterator {
    /// Yields the next command, consuming the comment up to its closing
    /// `]`, exactly as `next_step` reads it.
    pub fn next(&mut self) -> (r: Option<RawCommand>)
        ensures
            final(self).comment@ == next_step(old(self).comment@).1,
            match r {
                Some(cmd) => next_step(old(self).comment@).0 == Some(
                    (cmd.name@, cmd.params.remaining()),
                ),
                None => next_step(old(self).comment@).0 is None,
            },
    {
        let open_arr: [u8; 2] = ['[' as u8, '%' as u8];
        let close_arr: [u8; 1] = [']' as u8];
        proof {
            assert(open_arr@ =~= open_tag());
            assert(close_arr@ =~= close_tag());
        }
        let start = match find(self.comment.as_slice(), open_arr.as_slice()) {
            Some(s) => s,
            None => {
                return None;
            },
        };
        proof {
            lemma_find_spec_first(self.comment@, open_tag());
            assert(match_at(self.comment@, open_tag(), start as int));
        }
        let n = self.comment.len();
        let inner = sub_vec(self.comment.as_slice(), start, n);
        let end0 = match find(inner.as_slice(), close_arr.as_slice()) {
            Some(e) => e,
            None => {
                return None;
            },
        };
        proof {
            lemma_tags_bound(self.comment@, start as int, end0 as int);
            lemma_find_spec_first(inner@, close_tag());
            assert(match_at(inner@, close_tag(), end0 as int));
        }
        let command = sub_vec(self.comment.as_slice(), start + 2, start + end0);
        let rest = sub_vec(self.comment.as_slice(), start + end0, n);
        self.comment = rest;
        RawCommand::try_from(command.as_slice())
    }
}

/// Anything that can be read as a comment full of commands.
pub trait RawCommands {
    /// The comment's bytes.
    spec fn comment_bytes(&self) -> Seq<u8>;

    /// An iterator over the comment's commands.
    fn raw_commands(&self) -> (r: RawCommandIterator)
        ensures
            r.comment@ == self.comment_bytes(),
    ;
}

impl RawCommands for Vec<u8> {
    open spec fn comment_bytes(&self) -> Seq<u8> {
        self@
    }

    fn raw_commands(&self) -> (r: RawCommandIterator) {
        let n = self.len();
        let comment = sub_vec(self.as_slice(), 0, n);
        proof {
            assert(comment@ =~= self@);
        }
        RawCommandIterator { comment }
    }
}

/// A clock reading `H:MM:SS` from a `clk` command: the time a side had
/// left after its move.
#[derive(Clone, Copy, PartialEq, Eq, Structural, Debug)]
pub struct Clock {
    pub hours: u16,
    pub minutes: u8,
    pub seconds: u8,
}

/// The clock's whole reading in seconds.
pub open spec fn total_seconds_spec(c: Clock) -> int {
    c.hours * 3600 + c.minutes * 60 + c.seconds
}

/// What reading `H:MM:SS` out of a byte string yields: exactly three
/// colon-separated decimal fields, hours up to a `u16` and minutes and
/// seconds up to a `u8` each.
pub open spec fn clock_of_bytes(s: Seq<u8>) -> Option<Clock> {
    let parts = split_spec(s, ':' as u8);
    if parts.len() == 3 {
        if u16_of(parts[0]) is Some && u8_of(parts[1]) is Some && u8_of(parts[2]) is Some {
            Some(
                Clock {
                    hours: u16_of(parts[0])->Some_0,
                    minutes: u8_of(parts[1])->Some_0,
                    seconds: u8_of(parts[2])->Some_0,
                },
            )
        } else {
            None
        }
    } else {
        None
    }
}

/// What reading a clock out of a command's parameters yields: a single
/// parameter holding the time.
pub open spec fn clock_of_params(params: Seq<Seq<u8>>) -> Option<Clock> {
    if params.len() == 1 {
        clock_of_bytes(params[0])
    } else {
        None
    }
}

/// The parameters of the first `clk` command in a command list.
pub open spec fn first_clk(cmds: Seq<(Seq<u8>, Seq<Seq<u8>>)>) -> Option<Seq<Seq<u8>>>
    decreases cmds.len(),
{
    if cmds.len() == 0 {
        None
    } else if cmds[0].0 == clk_name() {
        Some(cmds[0].1)
    } else {
        first_clk(cmds.drop_first())
    }
}

/// What reading a clock out of a whole comment yields: the first `clk`
/// command the traversal sees, read as a clock.
pub open spec fn clock_of_comment(c: Seq<u8>) -> Option<Clock> {
    match first_clk(commands_of(c)) {
        Some(params) => clock_of_params(params),
        None => None,
    }
}

impl Clock {
    /// Reads `H:MM:SS` out of a byte string.
    pub fn try_from(value: &[u8]) -> (r: Option<Clock>)
        ensures
            r == clock_of_bytes(value@),
    {
        let parts = split(value, ':' as u8);
        if parts.len() != 3 {
            return None;
        }
        let hours = match parse_u16(parts[0].as_slice()) {
            Some(h) => h,
            None => {
                return None;
            },
        };
        let minutes = match parse_u8(parts[1].as_slice()) {
            Some(m) => m,
            None => {
                return None;
            },
        };
        let seconds = match parse_u8(parts[2].as_slice()) {
            Some(s) => s,
            None => {
                return None;
            },
        };
        Some(Clock { hours, minutes, seconds })
    }

    /// Reads the clock out of a command's parameters.
    pub fn try_from_command(command: RawCommand) -> (r: Option<Clock>)
        ensures
            r == clock_of_params(command.params.remaining()),
    {
        let mut params = command.params;
        let time = match params.next() {
            Some(t) => t,
            None => {
                return None;
            },
        };
        if params.next().is_some() {
            return None;
        }
        Clock::try_from(time.as_slice())
    }

    /// Reads the clock out of a whole comment: the first `clk` command the
    /// traversal sees.
    pub fn try_from_comment(comment: &[u8]) -> (r: Option<Clock>)
        ensures
            r == clock_of_comment(comment@),
    {
        let clk_arr: [u8; 3] = ['c' as u8, 'l' as u8, 'k' as u8];
        let n = comment.len();
        let owned = sub_vec(comment, 0, n);
        proof {
            assert(owned@ =~= comment@);
        }
        let mut it = RawCommandIterator { comment: owned };
        loop
            invariant
                clk_arr@ == clk_name(),
                clock_of_comment(comment@) == match first_clk(commands_of(it.comment@)) {
                    Some(params) => clock_of_params(params),
                    None => None::<Clock>,
                },
            decreases it.comment@.len(),
        {
            let ghost before = it.comment@;
            proof {
                lemma_next_step_shrinks(before);
            }
            match it.next() {
                Some(command) => {
                    proof {
                        assert(commands_of(before) == seq![
                            (command.name@, command.params.remaining()),
                        ] + commands_of(it.comment@));
                    }
                    if bytes_eq(command.name.as_slice(), clk_arr.as_slice()) {
                        proof {
                            assert(first_clk(commands_of(before)) == Some(
                                command.params.remaining(),
                            ));
                        }
                        return Clock::try_from_command(command);
                    }
                    proof {
                        assert(commands_of(before).drop_first() =~= commands_of(it.comment@));
                        assert(first_clk(commands_of(before)) == first_clk(
                            commands_of(it.comment@),
                        ));
                    }
                },
                None => {
                    proof {
                        assert(commands_of(before) =~= Seq::empty());
                    }
                    return None;
                },
            }
        }
    }

    /// The clock's whole reading in seconds.
    pub fn total_seconds(&self) -> (r: u32)
        ensures
            r == total_seconds_spec(*self),
    {
        (self.hours as u32) * 3600 + (self.minutes as u32) * 60 + (self.seconds as u32)
    }
}

} // verus!
