use vstd::prelude::*;

use crate::message::MessageEvent;
use crate::text::{contains_text, text_contains, upper_of, uppercase};

verus! {

pub open spec fn is_digit(c: char) -> bool {
    '0' <= c && c <= '9'
}

pub open spec fn is_alnum(c: char) -> bool {
    is_digit(c) || ('A' <= c && c <= 'Z') || ('a' <= c && c <= 'z')
}

/// An uppercase field letter, `A` to `R`.
pub open spec fn is_field_letter(c: char) -> bool {
    'A' <= c && c <= 'R'
}

/// A lowercase subsquare letter, `a` to `x`.
pub open spec fn is_subsquare_letter(c: char) -> bool {
    'a' <= c && c <= 'x'
}

/// A field letter in either case.
pub open spec fn is_field_letter_any_case(c: char) -> bool {
    is_field_letter(c) || ('a' <= c && c <= 'r')
}

/// A callsign is non-empty and holds only ASCII letters, digits and `/`.
pub open spec fn valid_callsign(s: Seq<char>) -> bool {
    s.len() > 0 && forall|i: int| 0 <= i < s.len() ==> is_alnum(#[trigger] s[i]) || s[i] == '/'
}

/// A Maidenhead locator: an even number of characters, at least four; a field
/// pair (A to R, either case), a square pair (digits), then for six or more a
/// subsquare pair (a to x), and for exactly eight an extended pair (digits).
pub open spec fn valid_grid(g: Seq<char>) -> bool {
    &&& g.len() >= 4
    &&& g.len() % 2 == 0
    &&& is_field_letter_any_case(g[0]) && is_field_letter_any_case(g[1])
    &&& is_digit(g[2]) && is_digit(g[3])
    &&& g.len() >= 6 ==> is_subsquare_letter(g[4]) && is_subsquare_letter(g[5])
    &&& g.len() == 8 ==> is_digit(g[6]) && is_digit(g[7])
}

fn char_is_digit(c: char) -> (r: bool)
    ensures
        r == is_digit(c),
{
    '0' <= c && c <= '9'
}

/// Whether `c` is a field letter, `A` to `R`.
pub fn valid_uppercase(c: char) -> (r: bool)
    ensures
        r == is_field_letter(c),
{
    'A' <= c && c <= 'R'
}

/// Whether `c` is a subsquare letter, `a` to `x`.
pub fn valid_lowercase(c: char) -> (r: bool)
    ensures
        r == is_subsquare_letter(c),
{
    'a' <= c && c <= 'x'
}

/// Whether `callsign` is a plausible callsign.
pub fn is_valid_callsign(callsign: &String) -> (r: bool)
    ensures
        r == valid_callsign(callsign@),
{
    let s = callsign.as_str();
    let n = s.unicode_len();
    if n == 0 {
        return false;
    }
    let mut i: usize = 0;
    while i < n
        invariant
            n == s@.len(),
            s@ == callsign@,
            i <= n,
            forall|j: int| 0 <= j < i ==> is_alnum(#[trigger] s@[j]) || s@[j] == '/',
        decreases n - i,
    {
        let c = s.get_char(i);
        let ok = ('0' <= c && c <= '9') || ('A' <= c && c <= 'Z') || ('a' <= c && c <= 'z') || c == '/';
        if !ok {
            return false;
        }
        i = i + 1;
    }
    true
}

/// Whether `grid` is a valid Maidenhead locator of 4, 6 or more characters.
pub fn is_valid_maidenhead_grid(grid: &str) -> (r: bool)
    ensures
        r == valid_grid(grid@),
{
    let len = grid.unicode_len();
    if len < 4 || len % 2 != 0 {
        return false;
    }
    let c0 = grid.get_char(0);
    let c1 = grid.get_char(1);
    let f0 = valid_uppercase(c0) || ('a' <= c0 && c0 <= 'r');
    let f1 = valid_uppercase(c1) || ('a' <= c1 && c1 <= 'r');
    if !f0 || !f1 {
        return false;
    }
    if !char_is_digit(grid.get_char(2)) || !char_is_digit(grid.get_char(3)) {
        return false;
    }
    if len >= 6 {
        if !valid_lowercase(grid.get_char(4)) || !valid_lowercase(grid.get_char(5)) {
            return false;
        }
    }
    if len == 8 {
        if !char_is_digit(grid.get_char(6)) || !char_is_digit(grid.get_char(7)) {
            return false;
        }
    }
    assert(is_field_letter_any_case(grid@[0]) && is_field_letter_any_case(grid@[1]));
    assert(is_digit(grid@[2]) && is_digit(grid@[3]));
    true
}

/// A sender may report for `callsign` when the upper-cased group card holds
/// it, or when the sender is an administrator.
pub fn callsign_auth(callsign: &String, payload: &MessageEvent, admin_list: &Vec<u64>) -> (r: bool)
    ensures
        r == (contains_text(upper_of(payload.sender.card@), callsign@) || admin_list@.contains(
            payload.sender.user_id,
        )),
{
    let card = uppercase(payload.sender.card.as_str());
    if text_contains(card.as_str(), callsign.as_str()) {
        return true;
    }
    let id = payload.sender.user_id;
    let mut i: usize = 0;
    while i < admin_list.len()
        invariant
            i <= admin_list@.len(),
            id == payload.sender.user_id,
            !contains_text(upper_of(payload.sender.card@), callsign@),
            forall|j: int| 0 <= j < i ==> admin_list@[j] != id,
        decreases admin_list@.len() - i,
    {
        if admin_list[i] == id {
            assert(admin_list@[i as int] == payload.sender.user_id);
            assert(admin_list@.contains(payload.sender.user_id));
            return true;
        }
        i = i + 1;
    }
    false
}

} // verus!
