//! The command grammar: from the first token of a request to a command.

use crate::bytes::copy_all;
use vstd::prelude::*;

verus! {

/// The commands of the server. A token that names none of the five known
/// commands is kept as it came.
#[derive(Clone, Debug, PartialEq, Eq)]
pub enum RedisCommand {
    PING,
    ECHO,
    SET,
    GET,
    INFO,
    Unknown(Vec<u8>),
}

/// The model of a command.
pub enum Command {
    PING,
    ECHO,
    SET,
    GET,
    INFO,
    Unknown(Seq<u8>),
}

impl View for RedisCommand {
    type V = Command;

    open spec fn view(&self) -> Command {
        match self {
            RedisCommand::PING => Command::PING,
            RedisCommand::ECHO => Command::ECHO,
            RedisCommand::SET => Command::SET,
            RedisCommand::GET => Command::GET,
            RedisCommand::INFO => Command::INFO,
            RedisCommand::Unknown(token) => Command::Unknown(token@),
        }
    }
}

/// The upper-case form of an ASCII letter; any other byte is itself.
pub open spec fn upper(b: u8) -> u8 {
    if 97 <= b <= 122 {
        (b - 32) as u8
    } else {
        b
    }
}

/// A run of bytes with each ASCII letter in upper case.
pub open spec fn upper_all(s: Seq<u8>) -> Seq<u8> {
    Seq::new(s.len(), |i: int| upper(s[i]))
}

pub open spec fn word_ping() -> Seq<u8> {
    seq!['P' as u8, 'I' as u8, 'N' as u8, 'G' as u8]
}

pub open spec fn word_echo() -> Seq<u8> {
    seq!['E' as u8, 'C' as u8, 'H' as u8, 'O' as u8]
}

pub open spec fn word_set() -> Seq<u8> {
    seq!['S' as u8, 'E' as u8, 'T' as u8]
}

pub open spec fn word_get() -> Seq<u8> {
    seq!['G' as u8, 'E' as u8, 'T' as u8]
}

pub open spec fn word_info() -> Seq<u8> {
    seq!['I' as u8, 'N' as u8, 'F' as u8, 'O' as u8]
}

/// The command that a token names: one of the five known ones where the
/// token is its name in any mix of upper and lower case, and `Unknown`
/// with the token for every other token.
pub open spec fn command_of(token: Seq<u8>) -> Command {
    let name = upper_all(token);
    if name == word_ping() {
        Command::PING
    } else if name == word_echo() {
        Command::ECHO
    } else if name == word_set() {
        Command::SET
    } else if name == word_get() {
        Command::GET
    } else if name == word_info() {
        Command::INFO
    } else {
        Command::Unknown(token)
    }
}

/// Tokens that differ in the case of their letters only name the same
/// command, or are both unknown.
pub proof fn lemma_command_ignores_case(a: Seq<u8>, b: Seq<u8>)
    requires
        upper_all(a) == upper_all(b),
    ensures
        command_of(a) is Unknown <==> command_of(b) is Unknown,
        !(command_of(a) is Unknown) ==> command_of(a) == command_of(b),
{
}

/// The upper-case form of `b`.
fn to_upper(b: u8) -> (r: u8)
    ensures
        r == upper(b),
{
    if 97 <= b && b <= 122 {
        b - 32
    } else {
        b
    }
}

/// Whether `token` is the three-letter word `a b c` in any case.
fn is_word3(token: &[u8], a: u8, b: u8, c: u8) -> (r: bool)
    ensures
        r == (upper_all(token@) == seq![a, b, c]),
{
    let ghost name = upper_all(token@);
    if token.len() != 3 {
        assert(name.len() != seq![a, b, c].len());
        return false;
    }
    let r = to_upper(token[0]) == a && to_upper(token[1]) == b && to_upper(token[2]) == c;
    proof {
        if r {
            assert(name =~= seq![a, b, c]);
        } else {
            let w = seq![a, b, c];
            assert(name[0] != w[0] || name[1] != w[1] || name[2] != w[2]);
        }
    }
    r
}

/// Whether `token` is the four-letter word `a b c d` in any case.
fn is_word4(token: &[u8], a: u8, b: u8, c: u8, d: u8) -> (r: bool)
    ensures
        r == (upper_all(token@) == seq![a, b, c, d]),
{
    let ghost name = upper_all(token@);
    if token.len() != 4 {
        assert(name.len() != seq![a, b, c, d].len());
        return false;
    }
    let r = to_upper(token[0]) == a && to_upper(token[1]) == b && to_upper(token[2]) == c
        && to_upper(token[3]) == d;
    proof {
        if r {
            assert(name =~= seq![a, b, c, d]);
        } else {
            let w = seq![a, b, c, d];
            assert(name[0] != w[0] || name[1] != w[1] || name[2] != w[2] || name[3] != w[3]);
        }
    }
    r
}

/// The command that `token` names.
pub fn redis_command_parser(token: &[u8]) -> (command: RedisCommand)
    ensures
        command@ == command_of(token@),
{
    if is_word4(token, 'P' as u8, 'I' as u8, 'N' as u8, 'G' as u8) {
        RedisCommand::PING
    } else if is_word4(token, 'E' as u8, 'C' as u8, 'H' as u8, 'O' as u8) {
        RedisCommand::ECHO
    } else if is_word3(token, 'S' as u8, 'E' as u8, 'T' as u8) {
        RedisCommand::SET
    } else if is_word3(token, 'G' as u8, 'E' as u8, 'T' as u8) {
        RedisCommand::GET
    } else if is_word4(token, 'I' as u8, 'N' as u8, 'F' as u8, 'O' as u8) {
        RedisCommand::INFO
    } else {
        RedisCommand::Unknown(copy_all(token))
    }
}

} // verus!
