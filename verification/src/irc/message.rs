//! IRC command lines: splitting a line into its parameters and recognising
//! the commands the server understands.
use vstd::prelude::*;
use crate::text::{
    begins_with, decimal_i32, parse_i32, split_on, split_on_char,
    starts_with_char, substring,
};

verus! {

broadcast use vstd::string::group_string_axioms;

/// A command received from an IRC client.
#[derive(Debug)]
pub enum IRCMessage {
    CAP(String, Option<i32>),
    NICK(String),
    QUIT(String),
    PASS(String),
    JOIN(String),
    PART(String),
    LIST(),
    PRIVMSG(String, String),
    USER(String, String, String, String),
    UNKNOWN(Vec<String>),
}

/// An [`IRCMessage`] with its strings taken as character sequences.
pub enum IRCMessageView {
    CAP(Seq<char>, Option<i32>),
    NICK(Seq<char>),
    QUIT(Seq<char>),
    PASS(Seq<char>),
    JOIN(Seq<char>),
    PART(Seq<char>),
    LIST,
    PRIVMSG(Seq<char>, Seq<char>),
    USER(Seq<char>, Seq<char>, Seq<char>, Seq<char>),
    UNKNOWN(Seq<Seq<char>>),
}

/// The character sequences of a list of strings.
pub open spec fn strings_view(v: Seq<String>) -> Seq<Seq<char>> {
    v.map_values(|p: String| p@)
}

impl View for IRCMessage {
    type V = IRCMessageView;

    open spec fn view(&self) -> IRCMessageView {
        match self {
            IRCMessage::CAP(s, n) => IRCMessageView::CAP(s@, *n),
            IRCMessage::NICK(s) => IRCMessageView::NICK(s@),
            IRCMessage::QUIT(s) => IRCMessageView::QUIT(s@),
            IRCMessage::PASS(s) => IRCMessageView::PASS(s@),
            IRCMessage::JOIN(s) => IRCMessageView::JOIN(s@),
            IRCMessage::PART(s) => IRCMessageView::PART(s@),
            IRCMessage::LIST() => IRCMessageView::LIST,
            IRCMessage::PRIVMSG(a, b) => IRCMessageView::PRIVMSG(a@, b@),
            IRCMessage::USER(a, b, c, d) => IRCMessageView::USER(a@, b@, c@, d@),
            IRCMessage::UNKNOWN(v) => IRCMessageView::UNKNOWN(strings_view(v@)),
        }
    }
}

/// The state while the space-separated pieces of a line are read left to
/// right: the parameters so far, and the trailing parameter once a piece
/// starting with `:` has been seen.
pub open spec fn scan_piece(
    state: (Seq<Seq<char>>, Option<Seq<char>>),
    piece: Seq<char>,
) -> (Seq<Seq<char>>, Option<Seq<char>>) {
    if starts_with_char(piece, ':') {
        (state.0, Some(piece.drop_first()))
    } else {
        match state.1 {
            Some(trailing) => (state.0, Some(trailing + seq![' '] + piece)),
            None => (state.0.push(piece), None),
        }
    }
}

/// [`scan_piece`] applied to every piece in order.
pub open spec fn scan_pieces(pieces: Seq<Seq<char>>) -> (Seq<Seq<char>>, Option<Seq<char>>)
    decreases pieces.len(),
{
    if pieces.len() == 0 {
        (Seq::empty(), None)
    } else {
        scan_piece(scan_pieces(pieces.drop_last()), pieces.last())
    }
}

/// The parameters of an IRC line: the space-separated pieces up to the
/// first piece that starts with `:`; from there on one trailing parameter
/// that keeps its spaces. A later piece starting with `:` starts the
/// trailing parameter afresh.
pub open spec fn irc_parts(line: Seq<char>) -> Seq<Seq<char>> {
    let state = scan_pieces(split_on(line, ' '));
    match state.1 {
        Some(trailing) => state.0.push(trailing),
        None => state.0,
    }
}

/// How many parameters (command included) a recognised command needs.
pub open spec fn required_parts(command: Seq<char>) -> int {
    if command == "CAP"@ || command == "NICK"@ || command == "QUIT"@ || command == "JOIN"@
        || command == "PART"@ || command == "PASS"@ {
        2
    } else if command == "PRIVMSG"@ {
        3
    } else if command == "USER"@ {
        5
    } else {
        0
    }
}

/// A line whose command, if recognised, has all the parameters it needs.
pub open spec fn has_required_parts(line: Seq<char>) -> bool {
    let parts = irc_parts(line);
    parts.len() == 0 || parts.len() >= required_parts(parts[0])
}

/// The command a line stands for.
pub open spec fn parse_line(line: Seq<char>) -> IRCMessageView {
    let parts = irc_parts(line);
    if parts.len() == 0 {
        IRCMessageView::UNKNOWN(Seq::empty())
    } else if parts[0] == "CAP"@ {
        IRCMessageView::CAP(
            parts[1],
            if parts.len() > 2 {
                decimal_i32(parts[2])
            } else {
                None
            },
        )
    } else if parts[0] == "NICK"@ {
        IRCMessageView::NICK(parts[1])
    } else if parts[0] == "LIST"@ {
        IRCMessageView::LIST
    } else if parts[0] == "QUIT"@ {
        IRCMessageView::QUIT(parts[1])
    } else if parts[0] == "JOIN"@ {
        IRCMessageView::JOIN(parts[1])
    } else if parts[0] == "PART"@ {
        IRCMessageView::PART(parts[1])
    } else if parts[0] == "PASS"@ {
        IRCMessageView::PASS(parts[1])
    } else if parts[0] == "PRIVMSG"@ {
        IRCMessageView::PRIVMSG(parts[1], parts[2])
    } else if parts[0] == "USER"@ {
        IRCMessageView::USER(parts[1], parts[2], parts[3], parts[4])
    } else {
        IRCMessageView::UNKNOWN(parts)
    }
}

/// Splits an IRC line into its parameters (see [`irc_parts`]).
pub fn get_parts(s: String) -> (parts: Vec<String>)
    ensures
        strings_view(parts@) == irc_parts(s@),
{
    let pieces = split_on_char(s.as_str(), ' ');
    let mut final_parts: Vec<String> = Vec::new();
    let mut last_started = false;
    let mut last = String::new();
    let n: usize = pieces.len();
    let mut i: usize = 0;
    proof {
        assert(strings_view(pieces@).take(0) =~= Seq::<Seq<char>>::empty());
    }
    while i < n
        invariant
            n == pieces@.len(),
            i <= n,
            strings_view(pieces@) == split_on(s@, ' '),
            scan_pieces(strings_view(pieces@).take(i as int)) == (
                strings_view(final_parts@),
                if last_started {
                    Some(last@)
                } else {
                    None::<Seq<char>>
                },
            ),
        decreases n - i,
    {
        let ghost before = strings_view(final_parts@);
        let p = &pieces[i];
        proof {
            assert(strings_view(pieces@).take(i + 1).drop_last() =~= strings_view(pieces@).take(
                i as int,
            ));
            assert(strings_view(pieces@)[i as int] == p@);
        }
        if begins_with(p.as_str(), ':') {
            last_started = true;
            let len: usize = p.as_str().unicode_len();
            last = substring(p.as_str(), 1, len);
            proof {
                assert(last@ =~= p@.drop_first());
            }
        } else if last_started {
            let ghost old_last = last@;
            last = last.concat(" ");
            last = last.concat(p.as_str());
            proof {
                reveal_strlit(" ");
                assert(last@ =~= old_last + seq![' '] + p@);
            }
        } else {
            final_parts.push(p.clone());
            proof {
                assert(strings_view(final_parts@) =~= before.push(p@));
            }
        }
        i = i + 1;
    }
    proof {
        assert(strings_view(pieces@).take(n as int) =~= strings_view(pieces@));
    }
    if last_started {
        let ghost before = strings_view(final_parts@);
        final_parts.push(last);
        proof {
            assert(strings_view(final_parts@) =~= before.push(last@));
        }
    }
    final_parts
}

impl IRCMessage {
    /// Whether [`IRCMessage::from_string`] can read `s`: a recognised
    /// command must come with all its parameters.
    pub fn has_required_parts(s: &String) -> (b: bool)
        ensures
            b == has_required_parts(s@),
    {
        let parts = get_parts(s.clone());
        if parts.len() == 0 {
            return true;
        }
        let need: usize = Self::required_parts(&parts[0]);
        proof {
            assert(strings_view(parts@)[0] == parts@[0]@);
        }
        parts.len() >= need
    }

    fn required_parts(command: &String) -> (n: usize)
        ensures
            n == required_parts(command@),
    {
        if *command == "CAP".to_string() || *command == "NICK".to_string() || *command
            == "QUIT".to_string() || *command == "JOIN".to_string() || *command
            == "PART".to_string() || *command == "PASS".to_string() {
            2
        } else if *command == "PRIVMSG".to_string() {
            3
        } else if *command == "USER".to_string() {
            5
        } else {
            0
        }
    }

    /// Reads an IRC line as a command (see [`parse_line`]).
    pub fn from_string(s: String) -> (m: IRCMessage)
        requires
            has_required_parts(s@),
        ensures
            m@ == parse_line(s@),
    {
        let parts = get_parts(s);
        let ghost pv = strings_view(parts@);
        if parts.len() == 0 {
            let empty: Vec<String> = Vec::new();
            proof {
                assert(strings_view(empty@) =~= Seq::<Seq<char>>::empty());
            }
            return IRCMessage::UNKNOWN(empty);
        }
        proof {
            assert forall|k: int| 0 <= k < parts@.len() implies #[trigger] pv[k] == parts@[k]@ by {}
            assert(pv[0] == parts@[0]@);
        }
        let first = &parts[0];
        if *first == "CAP".to_string() {
            let arg = if parts.len() > 2 {
                proof {
                    assert(pv[2] == parts@[2]@);
                }
                parse_i32(parts[2].as_str())
            } else {
                None
            };
            proof {
                assert(pv[1] == parts@[1]@);
            }
            IRCMessage::CAP(parts[1].clone(), arg)
        } else if *first == "NICK".to_string() {
            proof {
                assert(pv[1] == parts@[1]@);
            }
            IRCMessage::NICK(parts[1].clone())
        } else if *first == "LIST".to_string() {
            IRCMessage::LIST()
        } else if *first == "QUIT".to_string() {
            proof {
                assert(pv[1] == parts@[1]@);
            }
            IRCMessage::QUIT(parts[1].clone())
        } else if *first == "JOIN".to_string() {
            proof {
                assert(pv[1] == parts@[1]@);
            }
            IRCMessage::JOIN(parts[1].clone())
        } else if *first == "PART".to_string() {
            proof {
                assert(pv[1] == parts@[1]@);
            }
            IRCMessage::PART(parts[1].clone())
        } else if *first == "PASS".to_string() {
            proof {
                assert(pv[1] == parts@[1]@);
            }
            IRCMessage::PASS(parts[1].clone())
        } else if *first == "PRIVMSG".to_string() {
            proof {
                assert(pv[1] == parts@[1]@);
                assert(pv[2] == parts@[2]@);
            }
            IRCMessage::PRIVMSG(parts[1].clone(), parts[2].clone())
        } else if *first == "USER".to_string() {
            proof {
                assert(pv[1] == parts@[1]@);
                assert(pv[2] == parts@[2]@);
                assert(pv[3] == parts@[3]@);
                assert(pv[4] == parts@[4]@);
            }
            IRCMessage::USER(
                parts[1].clone(),
                parts[2].clone(),
                parts[3].clone(),
                parts[4].clone(),
            )
        } else {
            IRCMessage::UNKNOWN(parts)
        }
    }
}

} // verus!
