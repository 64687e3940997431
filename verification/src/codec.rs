//! Wire codec for the two message shapes of the session protocol.
//!
//! A frame is a string of characters. Every variable-length field is written
//! as a length header (the decimal character count, then `:`) followed by the
//! field's characters, so no escaping is ever needed; fixed alternatives are
//! written as single tag characters. The reference grammar is given by the
//! `p_*` spec functions, the reference printer by the `enc_*` spec functions,
//! and decoding any encoded message gives the message back
//! (`lemma_message_round_trip`).

use vstd::prelude::*;
use vstd::string::StrSliceExecFns;
use vstd::string::StringExecFns;

use crate::command::{
    Command, CommandMessage, CommandMessageView, CommandResponse, CommandResponseView,
    CommandStatus, CommandTarget, CommandTargetView, CommandType, CommandTypeView, CommandView,
    pairs_view,
};

verus! {

/// Decoding failed: the frame is malformed or carries an unknown tag.
#[derive(Debug, Clone, Copy, PartialEq, Eq, Structural)]
pub struct DecodeError;

// ---------------------------------------------------------------------------
// Decimal numbers
// ---------------------------------------------------------------------------

/// Whether a character is a decimal digit.
pub open spec fn is_digit(c: char) -> bool {
    48 <= c as u32 && c as u32 <= 57
}

/// The numeric value of a digit character.
pub open spec fn digit_val(c: char) -> nat {
    ((c as u32) - 48) as nat
}

/// The digit character for a value below ten.
pub open spec fn digit_char(n: nat) -> char {
    if n == 0 {
        '0'
    } else if n == 1 {
        '1'
    } else if n == 2 {
        '2'
    } else if n == 3 {
        '3'
    } else if n == 4 {
        '4'
    } else if n == 5 {
        '5'
    } else if n == 6 {
        '6'
    } else if n == 7 {
        '7'
    } else if n == 8 {
        '8'
    } else {
        '9'
    }
}

/// Every character of the sequence is a decimal digit.
pub open spec fn all_digits(s: Seq<char>) -> bool {
    forall|i: int| 0 <= i < s.len() ==> is_digit(s[i])
}

/// The value of a digit sequence read as a decimal number.
pub open spec fn dec_val(s: Seq<char>) -> nat
    decreases s.len(),
{
    if s.len() == 0 {
        0
    } else {
        dec_val(s.drop_last()) * 10 + digit_val(s.last())
    }
}

/// The canonical decimal representation of a number (no leading zeros).
pub open spec fn dec_rep(n: nat) -> Seq<char>
    decreases n,
{
    if n < 10 {
        seq![digit_char(n)]
    } else {
        dec_rep(n / 10).push(digit_char(n % 10))
    }
}

proof fn lemma_digit_char_val(m: nat)
    requires
        m < 10,
    ensures
        is_digit(digit_char(m)),
        digit_val(digit_char(m)) == m,
{
}

/// The canonical representation is nonempty and all digits.
pub proof fn lemma_dec_rep_digits(n: nat)
    ensures
        dec_rep(n).len() >= 1,
        all_digits(dec_rep(n)),
    decreases n,
{
    if n < 10 {
        lemma_digit_char_val(n);
    } else {
        lemma_dec_rep_digits(n / 10);
        lemma_digit_char_val(n % 10);
        assert(forall|i: int|
            0 <= i < dec_rep(n).len() - 1 ==> dec_rep(n)[i] == dec_rep(n / 10)[i]);
    }
}

/// Reading the canonical representation back gives the number.
pub proof fn lemma_dec_rep_val(n: nat)
    ensures
        dec_val(dec_rep(n)) == n,
    decreases n,
{
    if n < 10 {
        lemma_digit_char_val(n);
        assert(dec_rep(n) == seq![digit_char(n)]);
        assert(dec_rep(n).len() == 1);
        assert(dec_rep(n).drop_last() =~= Seq::<char>::empty());
        assert(dec_rep(n).last() == digit_char(n));
        assert(dec_val(Seq::<char>::empty()) == 0);
        assert(dec_val(dec_rep(n)) == dec_val(dec_rep(n).drop_last()) * 10 + digit_val(
            dec_rep(n).last(),
        ));
    } else {
        lemma_dec_rep_val(n / 10);
        lemma_digit_char_val(n % 10);
        assert(dec_rep(n) == dec_rep(n / 10).push(digit_char(n % 10)));
        assert(dec_rep(n).drop_last() =~= dec_rep(n / 10));
        assert(dec_rep(n).last() == digit_char(n % 10));
        assert(dec_rep(n).len() > 0);
        assert(dec_val(dec_rep(n)) == dec_val(dec_rep(n).drop_last()) * 10 + digit_val(
            dec_rep(n).last(),
        ));
        assert(dec_val(dec_rep(n)) == (n / 10) * 10 + (n % 10));
        assert(n == (n / 10) * 10 + (n % 10)) by (nonlinear_arith);
    }
}

/// Unfolds the value of one more digit at the end of a prefix.
proof fn lemma_dec_val_step(s: Seq<char>, j: int)
    requires
        0 <= j < s.len(),
    ensures
        dec_val(s.take(j + 1)) == dec_val(s.take(j)) * 10 + digit_val(s[j]),
{
    assert(s.take(j + 1).drop_last() =~= s.take(j));
    assert(s.take(j + 1).last() == s[j]);
}

/// The value of a prefix never exceeds the value of the whole sequence.
proof fn lemma_dec_val_take_le(s: Seq<char>, j: int)
    requires
        0 <= j <= s.len(),
    ensures
        dec_val(s.take(j)) <= dec_val(s),
    decreases s.len() - j,
{
    if j == s.len() {
        assert(s.take(j) =~= s);
    } else {
        lemma_dec_val_step(s, j);
        lemma_dec_val_take_le(s, j + 1);
    }
}

// ---------------------------------------------------------------------------
// The grammar primitives
// ---------------------------------------------------------------------------

/// Length of the leading run of digit characters.
pub open spec fn digit_prefix_len(s: Seq<char>) -> nat
    decreases s.len(),
{
    if s.len() == 0 || !is_digit(s[0]) {
        0
    } else {
        (1 + digit_prefix_len(s.skip(1))) as nat
    }
}

/// The digit prefix is exactly the position of the first non-digit.
proof fn lemma_digit_prefix_char(s: Seq<char>, k: int)
    requires
        0 <= k <= s.len(),
        forall|i: int| 0 <= i < k ==> is_digit(s[i]),
        k == s.len() || !is_digit(s[k]),
    ensures
        digit_prefix_len(s) == k,
    decreases s.len(),
{
    if k > 0 {
        assert(forall|i: int| 0 <= i < k - 1 ==> s.skip(1)[i] == s[i + 1]);
        lemma_digit_prefix_char(s.skip(1), k - 1);
    }
}

/// Any known run of digits bounds the digit prefix from below.
proof fn lemma_digit_prefix_lb(s: Seq<char>, k: int)
    requires
        0 <= k <= s.len(),
        forall|i: int| 0 <= i < k ==> is_digit(s[i]),
    ensures
        digit_prefix_len(s) >= k,
    decreases s.len(),
{
    if k > 0 {
        assert(forall|i: int| 0 <= i < k - 1 ==> s.skip(1)[i] == s[i + 1]);
        lemma_digit_prefix_lb(s.skip(1), k - 1);
    }
}

/// Parses a decimal number followed by `:`; yields the value and the rest.
pub open spec fn p_len(s: Seq<char>) -> Option<(nat, Seq<char>)> {
    let k = digit_prefix_len(s) as int;
    if k == 0 {
        None
    } else if k < s.len() && s[k] == ':' {
        Some((dec_val(s.take(k)), s.skip(k + 1)))
    } else {
        None
    }
}

/// A number on the wire: its decimal digits and a closing `:`.
pub open spec fn enc_num(n: nat) -> Seq<char> {
    dec_rep(n) + seq![':']
}

/// Parses a number that must fit a machine word.
pub open spec fn p_u64(s: Seq<char>) -> Option<(u64, Seq<char>)> {
    match p_len(s) {
        None => None,
        Some((nv, rest)) => if nv <= u64::MAX {
            Some((nv as u64, rest))
        } else {
            None
        },
    }
}

/// A string field on the wire: its character count, then its characters.
pub open spec fn enc_str(v: Seq<char>) -> Seq<char> {
    enc_num(v.len()) + v
}

/// Parses a length-prefixed string field.
pub open spec fn p_str(s: Seq<char>) -> Option<(Seq<char>, Seq<char>)> {
    match p_len(s) {
        None => None,
        Some((nv, rest)) => if nv <= rest.len() {
            Some((rest.take(nv as int), rest.skip(nv as int)))
        } else {
            None
        },
    }
}

/// Parses one tag character.
pub open spec fn p_tag(s: Seq<char>) -> Option<(char, Seq<char>)> {
    if s.len() > 0 {
        Some((s[0], s.skip(1)))
    } else {
        None
    }
}

/// Parsing an encoded number consumes exactly it.
pub proof fn lemma_p_len_enc(n: nat, rest: Seq<char>)
    ensures
        p_len(enc_num(n) + rest) == Some((n, rest)),
{
    let d = dec_rep(n);
    let s = enc_num(n) + rest;
    lemma_dec_rep_digits(n);
    lemma_dec_rep_val(n);
    assert(forall|i: int| 0 <= i < d.len() ==> s[i] == d[i]);
    assert(s[d.len() as int] == ':');
    lemma_digit_prefix_char(s, d.len() as int);
    assert(s.take(d.len() as int) =~= d);
    assert(s.skip(d.len() as int + 1) =~= rest);
}

/// Parsing an encoded machine-word number gives the number back.
pub proof fn lemma_p_u64_enc(x: u64, rest: Seq<char>)
    ensures
        p_u64(enc_num(x as nat) + rest) == Some((x, rest)),
{
    lemma_p_len_enc(x as nat, rest);
}

/// Parsing an encoded string field gives the field back.
pub proof fn lemma_p_str_enc(v: Seq<char>, rest: Seq<char>)
    ensures
        p_str(enc_str(v) + rest) == Some((v, rest)),
{
    assert(enc_str(v) + rest =~= enc_num(v.len()) + (v + rest));
    lemma_p_len_enc(v.len(), v + rest);
    assert((v + rest).take(v.len() as int) =~= v);
    assert((v + rest).skip(v.len() as int) =~= rest);
}

/// Parsing a tag character consumes exactly it.
pub proof fn lemma_p_tag_enc(c: char, rest: Seq<char>)
    ensures
        p_tag(seq![c] + rest) == Some((c, rest)),
{
    assert((seq![c] + rest).skip(1) =~= rest);
}

// ---------------------------------------------------------------------------
// Message fields
// ---------------------------------------------------------------------------

/// The tag character of a command status.
pub open spec fn enc_status(st: CommandStatus) -> Seq<char> {
    match st {
        CommandStatus::Received => seq!['R'],
        CommandStatus::InProgress => seq!['P'],
        CommandStatus::Completed => seq!['C'],
        CommandStatus::Failed => seq!['F'],
    }
}

/// Parses a command status tag.
pub open spec fn p_status(s: Seq<char>) -> Option<(CommandStatus, Seq<char>)> {
    match p_tag(s) {
        None => None,
        Some((c, rest)) => if c == 'R' {
            Some((CommandStatus::Received, rest))
        } else if c == 'P' {
            Some((CommandStatus::InProgress, rest))
        } else if c == 'C' {
            Some((CommandStatus::Completed, rest))
        } else if c == 'F' {
            Some((CommandStatus::Failed, rest))
        } else {
            None
        },
    }
}

proof fn lemma_p_status_enc(st: CommandStatus, rest: Seq<char>)
    ensures
        p_status(enc_status(st) + rest) == Some((st, rest)),
{
    match st {
        CommandStatus::Received => lemma_p_tag_enc('R', rest),
        CommandStatus::InProgress => lemma_p_tag_enc('P', rest),
        CommandStatus::Completed => lemma_p_tag_enc('C', rest),
        CommandStatus::Failed => lemma_p_tag_enc('F', rest),
    }
}

/// An optional string: `N`, or `S` followed by the string.
pub open spec fn enc_opt(o: Option<Seq<char>>) -> Seq<char> {
    match o {
        None => seq!['N'],
        Some(v) => seq!['S'] + enc_str(v),
    }
}

/// Parses an optional string.
pub open spec fn p_opt(s: Seq<char>) -> Option<(Option<Seq<char>>, Seq<char>)> {
    match p_tag(s) {
        None => None,
        Some((c, rest)) => if c == 'N' {
            Some((None, rest))
        } else if c == 'S' {
            match p_str(rest) {
                None => None,
                Some((v, r2)) => Some((Some(v), r2)),
            }
        } else {
            None
        },
    }
}

proof fn lemma_p_opt_enc(o: Option<Seq<char>>, rest: Seq<char>)
    ensures
        p_opt(enc_opt(o) + rest) == Some((o, rest)),
{
    match o {
        None => lemma_p_tag_enc('N', rest),
        Some(v) => {
            assert(enc_opt(o) + rest =~= seq!['S'] + (enc_str(v) + rest));
            lemma_p_tag_enc('S', enc_str(v) + rest);
            lemma_p_str_enc(v, rest);
        },
    }
}

/// The encoding of a command kind.
pub open spec fn enc_type(k: CommandTypeView) -> Seq<char> {
    match k {
        CommandTypeView::Start => seq!['S'],
        CommandTypeView::Stop => seq!['O'],
        CommandTypeView::Restart => seq!['R'],
        CommandTypeView::Payout => seq!['P'],
        CommandTypeView::PayoutAll => seq!['A'],
        CommandTypeView::RebootServer => seq!['B'],
        CommandTypeView::Custom(c) => seq!['X'] + enc_str(c),
    }
}

/// Parses a command kind.
pub open spec fn p_type(s: Seq<char>) -> Option<(CommandTypeView, Seq<char>)> {
    match p_tag(s) {
        None => None,
        Some((c, rest)) => if c == 'S' {
            Some((CommandTypeView::Start, rest))
        } else if c == 'O' {
            Some((CommandTypeView::Stop, rest))
        } else if c == 'R' {
            Some((CommandTypeView::Restart, rest))
        } else if c == 'P' {
            Some((CommandTypeView::Payout, rest))
        } else if c == 'A' {
            Some((CommandTypeView::PayoutAll, rest))
        } else if c == 'B' {
            Some((CommandTypeView::RebootServer, rest))
        } else if c == 'X' {
            match p_str(rest) {
                None => None,
                Some((v, r2)) => Some((CommandTypeView::Custom(v), r2)),
            }
        } else {
            None
        },
    }
}

proof fn lemma_p_type_enc(k: CommandTypeView, rest: Seq<char>)
    ensures
        p_type(enc_type(k) + rest) == Some((k, rest)),
{
    match k {
        CommandTypeView::Start => lemma_p_tag_enc('S', rest),
        CommandTypeView::Stop => lemma_p_tag_enc('O', rest),
        CommandTypeView::Restart => lemma_p_tag_enc('R', rest),
        CommandTypeView::Payout => lemma_p_tag_enc('P', rest),
        CommandTypeView::PayoutAll => lemma_p_tag_enc('A', rest),
        CommandTypeView::RebootServer => lemma_p_tag_enc('B', rest),
        CommandTypeView::Custom(c) => {
            assert(enc_type(k) + rest =~= seq!['X'] + (enc_str(c) + rest));
            lemma_p_tag_enc('X', enc_str(c) + rest);
            lemma_p_str_enc(c, rest);
        },
    }
}

/// The encoding of a command target.
pub open spec fn enc_target(t: CommandTargetView) -> Seq<char> {
    match t {
        CommandTargetView::Node(nm) => seq!['N'] + enc_str(nm),
        CommandTargetView::AllNodes => seq!['A'],
        CommandTargetView::Server => seq!['S'],
    }
}

/// Parses a command target.
pub open spec fn p_target(s: Seq<char>) -> Option<(CommandTargetView, Seq<char>)> {
    match p_tag(s) {
        None => None,
        Some((c, rest)) => if c == 'A' {
            Some((CommandTargetView::AllNodes, rest))
        } else if c == 'S' {
            Some((CommandTargetView::Server, rest))
        } else if c == 'N' {
            match p_str(rest) {
                None => None,
                Some((v, r2)) => Some((CommandTargetView::Node(v), r2)),
            }
        } else {
            None
        },
    }
}

proof fn lemma_p_target_enc(t: CommandTargetView, rest: Seq<char>)
    ensures
        p_target(enc_target(t) + rest) == Some((t, rest)),
{
    match t {
        CommandTargetView::AllNodes => lemma_p_tag_enc('A', rest),
        CommandTargetView::Server => lemma_p_tag_enc('S', rest),
        CommandTargetView::Node(nm) => {
            assert(enc_target(t) + rest =~= seq!['N'] + (enc_str(nm) + rest));
            lemma_p_tag_enc('N', enc_str(nm) + rest);
            lemma_p_str_enc(nm, rest);
        },
    }
}

/// The encoding of a parameter list: each key and value in order.
pub open spec fn enc_pairs(ps: Seq<(Seq<char>, Seq<char>)>) -> Seq<char>
    decreases ps.len(),
{
    if ps.len() == 0 {
        Seq::empty()
    } else {
        enc_str(ps[0].0) + enc_str(ps[0].1) + enc_pairs(ps.skip(1))
    }
}

/// Parses exactly `cnt` key/value pairs.
pub open spec fn p_pairs(cnt: nat, s: Seq<char>) -> Option<
    (Seq<(Seq<char>, Seq<char>)>, Seq<char>),
>
    decreases cnt,
{
    if cnt == 0 {
        Some((Seq::empty(), s))
    } else {
        match p_str(s) {
            None => None,
            Some((k, r1)) => match p_str(r1) {
                None => None,
                Some((v, r2)) => match p_pairs((cnt - 1) as nat, r2) {
                    None => None,
                    Some((tail, r3)) => Some((seq![(k, v)] + tail, r3)),
                },
            },
        }
    }
}

proof fn lemma_p_pairs_enc(ps: Seq<(Seq<char>, Seq<char>)>, rest: Seq<char>)
    ensures
        p_pairs(ps.len(), enc_pairs(ps) + rest) == Some((ps, rest)),
    decreases ps.len(),
{
    if ps.len() == 0 {
        assert(enc_pairs(ps) + rest =~= rest);
        assert(ps =~= Seq::<(Seq<char>, Seq<char>)>::empty());
    } else {
        let k0 = ps[0].0;
        let v0 = ps[0].1;
        let tail = ps.skip(1);
        assert(enc_pairs(ps) + rest =~= enc_str(k0) + (enc_str(v0) + (enc_pairs(tail) + rest)));
        lemma_p_str_enc(k0, enc_str(v0) + (enc_pairs(tail) + rest));
        lemma_p_str_enc(v0, enc_pairs(tail) + rest);
        lemma_p_pairs_enc(tail, rest);
        assert(seq![(k0, v0)] + tail =~= ps);
    }
}

/// The encoding of an optional parameter list: `N`, or `S`, the pair count,
/// and the pairs.
pub open spec fn enc_params(p: Option<Seq<(Seq<char>, Seq<char>)>>) -> Seq<char> {
    match p {
        None => seq!['N'],
        Some(ps) => seq!['S'] + enc_num(ps.len()) + enc_pairs(ps),
    }
}

/// Parses an optional parameter list.
pub open spec fn p_params(s: Seq<char>) -> Option<
    (Option<Seq<(Seq<char>, Seq<char>)>>, Seq<char>),
> {
    match p_tag(s) {
        None => None,
        Some((c, rest)) => if c == 'N' {
            Some((None, rest))
        } else if c == 'S' {
            match p_u64(rest) {
                None => None,
                Some((cnt, r1)) => match p_pairs(cnt as nat, r1) {
                    None => None,
                    Some((ps, r2)) => Some((Some(ps), r2)),
                },
            }
        } else {
            None
        },
    }
}

proof fn lemma_p_params_enc(p: Option<Seq<(Seq<char>, Seq<char>)>>, rest: Seq<char>)
    requires
        p matches Some(ps) ==> ps.len() <= u64::MAX,
    ensures
        p_params(enc_params(p) + rest) == Some((p, rest)),
{
    match p {
        None => lemma_p_tag_enc('N', rest),
        Some(ps) => {
            let after_tag = enc_num(ps.len()) + (enc_pairs(ps) + rest);
            assert(enc_params(p) + rest =~= seq!['S'] + after_tag);
            lemma_p_tag_enc('S', after_tag);
            lemma_p_len_enc(ps.len(), enc_pairs(ps) + rest);
            lemma_p_pairs_enc(ps, rest);
        },
    }
}

// ---------------------------------------------------------------------------
// Whole messages
// ---------------------------------------------------------------------------

/// A command whose encoding is faithful: the parameter count fits the wire's
/// count field. Every command held in memory satisfies this.
pub open spec fn command_view_wf(c: CommandView) -> bool {
    c.parameters matches Some(ps) ==> ps.len() <= u64::MAX
}

/// The body of a command frame.
pub open spec fn enc_command(c: CommandView) -> Seq<char> {
    enc_str(c.id) + enc_type(c.command_type) + enc_target(c.target) + enc_params(c.parameters)
        + enc_num(c.timestamp as nat)
}

/// Parses the body of a command frame.
pub open spec fn p_command(s: Seq<char>) -> Option<(CommandView, Seq<char>)> {
    match p_str(s) {
        None => None,
        Some((id, r1)) => match p_type(r1) {
            None => None,
            Some((k, r2)) => match p_target(r2) {
                None => None,
                Some((t, r3)) => match p_params(r3) {
                    None => None,
                    Some((ps, r4)) => match p_u64(r4) {
                        None => None,
                        Some((ts, r5)) => Some(
                            (
                                CommandView {
                                    id: id,
                                    command_type: k,
                                    target: t,
                                    parameters: ps,
                                    timestamp: ts,
                                },
                                r5,
                            ),
                        ),
                    },
                },
            },
        },
    }
}

proof fn lemma_p_command_enc(c: CommandView, rest: Seq<char>)
    requires
        command_view_wf(c),
    ensures
        p_command(enc_command(c) + rest) == Some((c, rest)),
{
    let e2 = enc_type(c.command_type);
    let e3 = enc_target(c.target);
    let e4 = enc_params(c.parameters);
    let e5 = enc_num(c.timestamp as nat);
    assert(enc_command(c) + rest =~= enc_str(c.id) + (e2 + (e3 + (e4 + (e5 + rest)))));
    lemma_p_str_enc(c.id, e2 + (e3 + (e4 + (e5 + rest))));
    lemma_p_type_enc(c.command_type, e3 + (e4 + (e5 + rest)));
    lemma_p_target_enc(c.target, e4 + (e5 + rest));
    lemma_p_params_enc(c.parameters, e5 + rest);
    lemma_p_u64_enc(c.timestamp, rest);
}

/// The body of a response frame.
pub open spec fn enc_response(r: CommandResponseView) -> Seq<char> {
    enc_str(r.command_id) + enc_status(r.status) + enc_opt(r.result) + enc_opt(r.error) + enc_num(
        r.timestamp as nat,
    )
}

/// Parses the body of a response frame.
pub open spec fn p_response(s: Seq<char>) -> Option<(CommandResponseView, Seq<char>)> {
    match p_str(s) {
        None => None,
        Some((id, r1)) => match p_status(r1) {
            None => None,
            Some((st, r2)) => match p_opt(r2) {
                None => None,
                Some((res, r3)) => match p_opt(r3) {
                    None => None,
                    Some((err, r4)) => match p_u64(r4) {
                        None => None,
                        Some((ts, r5)) => Some(
                            (
                                CommandResponseView {
                                    command_id: id,
                                    status: st,
                                    result: res,
                                    error: err,
                                    timestamp: ts,
                                },
                                r5,
                            ),
                        ),
                    },
                },
            },
        },
    }
}

proof fn lemma_p_response_enc(r: CommandResponseView, rest: Seq<char>)
    ensures
        p_response(enc_response(r) + rest) == Some((r, rest)),
{
    let e2 = enc_status(r.status);
    let e3 = enc_opt(r.result);
    let e4 = enc_opt(r.error);
    let e5 = enc_num(r.timestamp as nat);
    assert(enc_response(r) + rest =~= enc_str(r.command_id) + (e2 + (e3 + (e4 + (e5 + rest)))));
    lemma_p_str_enc(r.command_id, e2 + (e3 + (e4 + (e5 + rest))));
    lemma_p_status_enc(r.status, e3 + (e4 + (e5 + rest)));
    lemma_p_opt_enc(r.result, e4 + (e5 + rest));
    lemma_p_opt_enc(r.error, e5 + rest);
    lemma_p_u64_enc(r.timestamp, rest);
}

/// A message whose encoding is faithful on the wire.
pub open spec fn message_view_wf(m: CommandMessageView) -> bool {
    match m {
        CommandMessageView::Command(c) => command_view_wf(c),
        CommandMessageView::Response(_) => true,
    }
}

/// The reference encoding of an envelope frame.
pub open spec fn spec_encode_message(m: CommandMessageView) -> Seq<char> {
    match m {
        CommandMessageView::Command(c) => seq!['C'] + enc_command(c),
        CommandMessageView::Response(r) => seq!['R'] + enc_response(r),
    }
}

/// The reference decoding of an envelope frame: the whole frame must parse.
pub open spec fn spec_decode_message(s: Seq<char>) -> Option<CommandMessageView> {
    match p_tag(s) {
        None => None,
        Some((c, rest)) => if c == 'C' {
            match p_command(rest) {
                None => None,
                Some((cv, r1)) => if r1.len() == 0 {
                    Some(CommandMessageView::Command(cv))
                } else {
                    None
                },
            }
        } else if c == 'R' {
            match p_response(rest) {
                None => None,
                Some((rv, r1)) => if r1.len() == 0 {
                    Some(CommandMessageView::Response(rv))
                } else {
                    None
                },
            }
        } else {
            None
        },
    }
}

/// Decoding an encoded envelope gives the envelope back: the codec loses
/// nothing on the wire.
pub proof fn lemma_message_round_trip(m: CommandMessageView)
    requires
        message_view_wf(m),
    ensures
        spec_decode_message(spec_encode_message(m)) == Some(m),
{
    match m {
        CommandMessageView::Command(c) => {
            assert(spec_encode_message(m) =~= seq!['C'] + (enc_command(c) + Seq::<
                char,
            >::empty()));
            lemma_p_tag_enc('C', enc_command(c) + Seq::<char>::empty());
            lemma_p_command_enc(c, Seq::<char>::empty());
        },
        CommandMessageView::Response(r) => {
            assert(spec_encode_message(m) =~= seq!['R'] + (enc_response(r) + Seq::<
                char,
            >::empty()));
            lemma_p_tag_enc('R', enc_response(r) + Seq::<char>::empty());
            lemma_p_response_enc(r, Seq::<char>::empty());
        },
    }
}

/// The encoding of a blob list: each blob in order.
pub open spec fn enc_blobs(us: Seq<Seq<char>>) -> Seq<char>
    decreases us.len(),
{
    if us.len() == 0 {
        Seq::empty()
    } else {
        enc_str(us[0]) + enc_blobs(us.skip(1))
    }
}

/// The reference encoding of a telemetry frame.
pub open spec fn spec_encode_telemetry(t: crate::telemetry::TelemetrySnapshotView) -> Seq<char> {
    seq!['T'] + enc_str(t.agent_id) + enc_num(t.captured_at as nat) + enc_str(t.system) + enc_num(
        t.units.len(),
    ) + enc_blobs(t.units)
}

// ---------------------------------------------------------------------------
// Executable encoding
// ---------------------------------------------------------------------------

/// Relies on `String::push`: appends exactly the one given character.
#[verifier::external_body]
pub(crate) fn push_char(s: &mut String, c: char)
    ensures
        final (s)@ == old(s)@.push(c),
{
    s.push(c);
}

pub(crate) fn digit_to_char(d: u8) -> (c: char)
    requires
        d < 10,
    ensures
        c == digit_char(d as nat),
{
    match d {
        0 => '0',
        1 => '1',
        2 => '2',
        3 => '3',
        4 => '4',
        5 => '5',
        6 => '6',
        7 => '7',
        8 => '8',
        _ => '9',
    }
}

/// Appends the canonical decimal representation of `x`.
pub(crate) fn push_dec(out: &mut String, x: u64)
    ensures
        final (out)@ == old(out)@ + dec_rep(x as nat),
    decreases x,
{
    if x >= 10 {
        push_dec(out, x / 10);
    }
    let d: u8 = (x % 10) as u8;
    push_char(out, digit_to_char(d));
    proof {
        if x < 10 {
            assert(final (out)@ =~= old(out)@ + dec_rep(x as nat));
        } else {
            assert((x as nat) / 10 == (x / 10) as nat);
            assert((x as nat) % 10 == (x % 10) as nat);
            assert(final (out)@ =~= old(out)@ + dec_rep(x as nat));
        }
    }
}

/// Appends a number field.
fn put_num(out: &mut String, x: u64)
    ensures
        final (out)@ == old(out)@ + enc_num(x as nat),
{
    push_dec(out, x);
    push_char(out, ':');
    proof {
        assert(final (out)@ =~= old(out)@ + enc_num(x as nat));
    }
}

/// Appends a string field.
fn put_str(out: &mut String, v: &str)
    ensures
        final (out)@ == old(out)@ + enc_str(v@),
{
    let l: usize = v.unicode_len();
    put_num(out, l as u64);
    out.append(v);
    proof {
        assert(final (out)@ =~= old(out)@ + enc_str(v@));
    }
}

fn put_opt(out: &mut String, o: &Option<String>)
    ensures
        final (out)@ == old(out)@ + enc_opt(match o {
            None => None,
            Some(v) => Some(v@),
        }),
{
    match o {
        None => push_char(out, 'N'),
        Some(v) => {
            push_char(out, 'S');
            put_str(out, v.as_str());
            proof {
                assert(final (out)@ =~= old(out)@ + enc_opt(Some(v@)));
            }
        },
    }
}

fn put_status(out: &mut String, st: CommandStatus)
    ensures
        final (out)@ == old(out)@ + enc_status(st),
{
    match st {
        CommandStatus::Received => push_char(out, 'R'),
        CommandStatus::InProgress => push_char(out, 'P'),
        CommandStatus::Completed => push_char(out, 'C'),
        CommandStatus::Failed => push_char(out, 'F'),
    }
}

fn put_type(out: &mut String, k: &CommandType)
    ensures
        final (out)@ == old(out)@ + enc_type(k@),
{
    match k {
        CommandType::Start => push_char(out, 'S'),
        CommandType::Stop => push_char(out, 'O'),
        CommandType::Restart => push_char(out, 'R'),
        CommandType::Payout => push_char(out, 'P'),
        CommandType::PayoutAll => push_char(out, 'A'),
        CommandType::RebootServer => push_char(out, 'B'),
        CommandType::Custom(c) => {
            push_char(out, 'X');
            put_str(out, c.as_str());
            proof {
                assert(final (out)@ =~= old(out)@ + enc_type(k@));
            }
        },
    }
}

fn put_target(out: &mut String, t: &CommandTarget)
    ensures
        final (out)@ == old(out)@ + enc_target(t@),
{
    match t {
        CommandTarget::AllNodes => push_char(out, 'A'),
        CommandTarget::Server => push_char(out, 'S'),
        CommandTarget::Node(nm) => {
            push_char(out, 'N');
            put_str(out, nm.as_str());
            proof {
                assert(final (out)@ =~= old(out)@ + enc_target(t@));
            }
        },
    }
}

proof fn lemma_enc_pairs_push(q: Seq<(Seq<char>, Seq<char>)>, p: (Seq<char>, Seq<char>))
    ensures
        enc_pairs(q.push(p)) == enc_pairs(q) + enc_str(p.0) + enc_str(p.1),
    decreases q.len(),
{
    if q.len() == 0 {
        assert(q.push(p)[0] == p);
        assert(q.push(p).skip(1) =~= Seq::<(Seq<char>, Seq<char>)>::empty());
        assert(enc_pairs(q.push(p)) == enc_str(p.0) + enc_str(p.1) + enc_pairs(
            Seq::<(Seq<char>, Seq<char>)>::empty(),
        ));
        assert(enc_pairs(Seq::<(Seq<char>, Seq<char>)>::empty()) == Seq::<char>::empty());
        assert(enc_pairs(q) == Seq::<char>::empty());
        assert(enc_pairs(q.push(p)) =~= enc_pairs(q) + enc_str(p.0) + enc_str(p.1));
    } else {
        assert(q.push(p)[0] == q[0]);
        assert(q.push(p).skip(1) =~= q.skip(1).push(p));
        lemma_enc_pairs_push(q.skip(1), p);
        assert(enc_pairs(q.push(p)) == enc_str(q[0].0) + enc_str(q[0].1) + enc_pairs(
            q.skip(1).push(p),
        ));
        assert(enc_pairs(q.push(p)) =~= enc_pairs(q) + enc_str(p.0) + enc_str(p.1));
    }
}

fn put_params(out: &mut String, p: &Option<Vec<(String, String)>>)
    ensures
        final (out)@ == old(out)@ + enc_params(match p {
            None => None,
            Some(v) => Some(pairs_view(v@)),
        }),
{
    match p {
        None => push_char(out, 'N'),
        Some(v) => {
            let ghost ps = pairs_view(v@);
            push_char(out, 'S');
            put_num(out, v.len() as u64);
            let ghost head = old(out)@ + seq!['S'] + enc_num(v@.len());
            assert(out@ =~= head);
            let mut i: usize = 0;
            while i < v.len()
                invariant
                    i <= v.len(),
                    ps == pairs_view(v@),
                    out@ == head + enc_pairs(ps.take(i as int)),
                decreases v.len() - i,
            {
                let pair = &v[i];
                put_str(out, pair.0.as_str());
                put_str(out, pair.1.as_str());
                proof {
                    assert(ps.take(i + 1) =~= ps.take(i as int).push(ps[i as int]));
                    lemma_enc_pairs_push(ps.take(i as int), ps[i as int]);
                    assert(out@ =~= head + enc_pairs(ps.take(i + 1)));
                }
                i = i + 1;
            }
            proof {
                assert(ps.take(v@.len() as int) =~= ps);
                assert(final (out)@ =~= old(out)@ + enc_params(Some(ps)));
            }
        },
    }
}

/// Encodes an envelope for the wire; the result is exactly the reference
/// encoding of the message's model.
pub fn encode_message(m: &CommandMessage) -> (r: String)
    ensures
        r@ == spec_encode_message(m@),
{
    let mut out = String::new();
    match m {
        CommandMessage::Command(c) => {
            push_char(&mut out, 'C');
            put_str(&mut out, c.id.as_str());
            put_type(&mut out, &c.command_type);
            put_target(&mut out, &c.target);
            put_params(&mut out, &c.parameters);
            put_num(&mut out, c.timestamp);
            proof {
                assert(out@ =~= spec_encode_message(m@));
            }
        },
        CommandMessage::Response(resp) => {
            push_char(&mut out, 'R');
            put_str(&mut out, resp.command_id.as_str());
            put_status(&mut out, resp.status);
            put_opt(&mut out, &resp.result);
            put_opt(&mut out, &resp.error);
            put_num(&mut out, resp.timestamp);
            proof {
                assert(out@ =~= spec_encode_message(m@));
            }
        },
    }
    out
}

proof fn lemma_enc_blobs_push(q: Seq<Seq<char>>, b: Seq<char>)
    ensures
        enc_blobs(q.push(b)) == enc_blobs(q) + enc_str(b),
    decreases q.len(),
{
    if q.len() == 0 {
        assert(q.push(b)[0] == b);
        assert(q.push(b).skip(1) =~= Seq::<Seq<char>>::empty());
        assert(enc_blobs(q.push(b)) == enc_str(b) + enc_blobs(Seq::<Seq<char>>::empty()));
        assert(enc_blobs(Seq::<Seq<char>>::empty()) == Seq::<char>::empty());
        assert(enc_blobs(q) == Seq::<char>::empty());
        assert(enc_blobs(q.push(b)) =~= enc_blobs(q) + enc_str(b));
    } else {
        assert(q.push(b)[0] == q[0]);
        assert(q.push(b).skip(1) =~= q.skip(1).push(b));
        lemma_enc_blobs_push(q.skip(1), b);
        assert(enc_blobs(q.push(b)) == enc_str(q[0]) + enc_blobs(q.skip(1).push(b)));
        assert(enc_blobs(q.push(b)) =~= enc_blobs(q) + enc_str(b));
    }
}

/// Encodes a telemetry frame for the wire; the result is exactly the
/// reference encoding of the snapshot's model.
pub fn encode_telemetry(t: &crate::telemetry::TelemetrySnapshot) -> (r: String)
    ensures
        r@ == spec_encode_telemetry(t@),
{
    let ghost us = t@.units;
    let mut out = String::new();
    push_char(&mut out, 'T');
    put_str(&mut out, t.agent_id.as_str());
    put_num(&mut out, t.captured_at);
    put_str(&mut out, t.system.as_str());
    put_num(&mut out, t.units.len() as u64);
    let ghost head = out@;
    assert(out@ =~= head + enc_blobs(us.take(0)));
    let mut i: usize = 0;
    while i < t.units.len()
        invariant
            i <= t.units.len(),
            us == t@.units,
            out@ == head + enc_blobs(us.take(i as int)),
        decreases t.units.len() - i,
    {
        put_str(&mut out, t.units[i].as_str());
        proof {
            assert(us.take(i + 1) =~= us.take(i as int).push(us[i as int]));
            lemma_enc_blobs_push(us.take(i as int), us[i as int]);
            assert(out@ =~= head + enc_blobs(us.take(i + 1)));
        }
        i = i + 1;
    }
    proof {
        assert(us.take(t.units@.len() as int) =~= us);
        assert(out@ =~= spec_encode_telemetry(t@));
    }
    out
}

// ---------------------------------------------------------------------------
// Executable decoding
// ---------------------------------------------------------------------------

/// The digit prefix never runs past the end.
proof fn lemma_digit_prefix_le(s: Seq<char>)
    ensures
        digit_prefix_len(s) <= s.len(),
    decreases s.len(),
{
    if s.len() > 0 && is_digit(s[0]) {
        lemma_digit_prefix_le(s.skip(1));
    }
}

/// A digit prefix whose value is out of range makes the whole number field
/// unparseable.
proof fn lemma_overflow_none(t: Seq<char>, k: int)
    requires
        0 <= k <= t.len(),
        forall|j: int| 0 <= j < k ==> is_digit(t[j]),
        dec_val(t.take(k)) > u64::MAX,
    ensures
        p_u64(t) is None,
{
    lemma_digit_prefix_lb(t, k);
    lemma_digit_prefix_le(t);
    let dp = digit_prefix_len(t) as int;
    assert(t.take(dp).take(k) =~= t.take(k));
    lemma_dec_val_take_le(t.take(dp), k);
}

fn read_tag(s: &str, n: usize, pos: &mut usize) -> (r: Result<char, DecodeError>)
    requires
        s@.len() == n as nat,
        *old(pos) <= n,
    ensures
        *old(pos) <= *final (pos) <= n,
        match r {
            Ok(c) => p_tag(s@.skip(*old(pos) as int)) == Some(
                (c, s@.skip(*final (pos) as int)),
            ),
            Err(_) => p_tag(s@.skip(*old(pos) as int)) is None,
        },
{
    if *pos < n {
        let c = s.get_char(*pos);
        proof {
            assert(s@.skip(*pos as int).skip(1) =~= s@.skip(*pos + 1));
        }
        *pos = *pos + 1;
        Ok(c)
    } else {
        proof {
            assert(s@.skip(*pos as int).len() == 0);
        }
        Err(DecodeError)
    }
}

fn read_num(s: &str, n: usize, pos: &mut usize) -> (r: Result<u64, DecodeError>)
    requires
        s@.len() == n as nat,
        *old(pos) <= n,
    ensures
        *old(pos) <= *final (pos) <= n,
        match r {
            Ok(x) => p_u64(s@.skip(*old(pos) as int)) == Some(
                (x, s@.skip(*final (pos) as int)),
            ),
            Err(_) => p_u64(s@.skip(*old(pos) as int)) is None,
        },
{
    let ghost t = s@.skip(*pos as int);
    let start: usize = *pos;
    let mut i: usize = start;
    let mut acc: u64 = 0;
    loop
        invariant_except_break
            s@.len() == n as nat,
            start == *old(pos),
            *pos == start,
            start <= i <= n,
            t == s@.skip(start as int),
            forall|j: int| start <= j < i ==> is_digit(s@[j]),
            acc as nat == dec_val(t.take(i - start)),
        ensures
            s@.len() == n as nat,
            start == *old(pos),
            *pos == start,
            start <= i <= n,
            forall|j: int| start <= j < i ==> is_digit(s@[j]),
            acc as nat == dec_val(t.take(i - start)),
            i == n || !is_digit(s@[i as int]),
        decreases n - i,
    {
        if i >= n {
            break ;
        }
        let c = s.get_char(i);
        let u: u32 = c as u32;
        if !(48 <= u && u <= 57) {
            break ;
        }
        let d: u64 = ((u - 48) as u8) as u64;
        proof {
            assert(t[i - start] == s@[i as int]);
            lemma_dec_val_step(t, i - start);
        }
        if acc > u64::MAX / 10 {
            proof {
                lemma_overflow_none(t, i - start + 1);
            }
            return Err(DecodeError);
        }
        let acc10: u64 = acc * 10;
        if d > u64::MAX - acc10 {
            proof {
                lemma_overflow_none(t, i - start + 1);
            }
            return Err(DecodeError);
        }
        acc = acc10 + d;
        i = i + 1;
    }
    let k: usize = i - start;
    if k == 0 {
        proof {
            if t.len() > 0 {
                assert(t[0] == s@[start as int]);
            }
            lemma_digit_prefix_char(t, 0);
        }
        return Err(DecodeError);
    }
    proof {
        assert(forall|j: int| 0 <= j < k ==> t[j] == s@[j + start]);
    }
    if i >= n {
        proof {
            lemma_digit_prefix_char(t, k as int);
        }
        return Err(DecodeError);
    }
    proof {
        assert(t[k as int] == s@[i as int]);
        lemma_digit_prefix_char(t, k as int);
    }
    let c = s.get_char(i);
    if c != ':' {
        return Err(DecodeError);
    }
    proof {
        assert(t.skip(k + 1) =~= s@.skip(i + 1));
    }
    *pos = i + 1;
    Ok(acc)
}

fn read_str(s: &str, n: usize, pos: &mut usize) -> (r: Result<String, DecodeError>)
    requires
        s@.len() == n as nat,
        *old(pos) <= n,
    ensures
        *old(pos) <= *final (pos) <= n,
        match r {
            Ok(v) => p_str(s@.skip(*old(pos) as int)) == Some(
                (v@, s@.skip(*final (pos) as int)),
            ),
            Err(_) => p_str(s@.skip(*old(pos) as int)) is None,
        },
{
    let ghost t = s@.skip(*pos as int);
    let l: u64 = match read_num(s, n, pos) {
        Ok(l) => l,
        Err(e) => {
            proof {
                lemma_digit_prefix_le(t);
                if p_len(t) is Some {
                    // the length value itself is out of range, so it cannot
                    // fit in what remains of the frame
                    assert(p_len(t)->Some_0.1.len() <= t.len());
                    assert(t.len() <= n as nat);
                }
            }
            return Err(e);
        },
    };
    let rem: usize = n - *pos;
    if l > rem as u64 {
        return Err(DecodeError);
    }
    let lu: usize = l as usize;
    let sub = s.substring_char(*pos, *pos + lu);
    let v = String::from_str(sub);
    proof {
        assert(s@.skip(*pos as int).take(lu as int) =~= s@.subrange(
            *pos as int,
            *pos + lu,
        ));
        assert(s@.skip(*pos as int).skip(lu as int) =~= s@.skip(*pos + lu));
    }
    *pos = *pos + lu;
    Ok(v)
}

/// The model of an optional string value.
pub open spec fn str_opt_view(o: Option<String>) -> Option<Seq<char>> {
    match o {
        None => None,
        Some(v) => Some(v@),
    }
}

fn read_opt(s: &str, n: usize, pos: &mut usize) -> (r: Result<Option<String>, DecodeError>)
    requires
        s@.len() == n as nat,
        *old(pos) <= n,
    ensures
        *old(pos) <= *final (pos) <= n,
        match r {
            Ok(o) => p_opt(s@.skip(*old(pos) as int)) == Some(
                (str_opt_view(o), s@.skip(*final (pos) as int)),
            ),
            Err(_) => p_opt(s@.skip(*old(pos) as int)) is None,
        },
{
    let tag = match read_tag(s, n, pos) {
        Ok(c) => c,
        Err(e) => {
            return Err(e);
        },
    };
    if tag == 'N' {
        Ok(None)
    } else if tag == 'S' {
        match read_str(s, n, pos) {
            Ok(v) => Ok(Some(v)),
            Err(e) => Err(e),
        }
    } else {
        Err(DecodeError)
    }
}

fn read_status(s: &str, n: usize, pos: &mut usize) -> (r: Result<CommandStatus, DecodeError>)
    requires
        s@.len() == n as nat,
        *old(pos) <= n,
    ensures
        *old(pos) <= *final (pos) <= n,
        match r {
            Ok(st) => p_status(s@.skip(*old(pos) as int)) == Some(
                (st, s@.skip(*final (pos) as int)),
            ),
            Err(_) => p_status(s@.skip(*old(pos) as int)) is None,
        },
{
    let tag = match read_tag(s, n, pos) {
        Ok(c) => c,
        Err(e) => {
            return Err(e);
        },
    };
    if tag == 'R' {
        Ok(CommandStatus::Received)
    } else if tag == 'P' {
        Ok(CommandStatus::InProgress)
    } else if tag == 'C' {
        Ok(CommandStatus::Completed)
    } else if tag == 'F' {
        Ok(CommandStatus::Failed)
    } else {
        Err(DecodeError)
    }
}

fn read_type(s: &str, n: usize, pos: &mut usize) -> (r: Result<CommandType, DecodeError>)
    requires
        s@.len() == n as nat,
        *old(pos) <= n,
    ensures
        *old(pos) <= *final (pos) <= n,
        match r {
            Ok(k) => p_type(s@.skip(*old(pos) as int)) == Some(
                (k@, s@.skip(*final (pos) as int)),
            ),
            Err(_) => p_type(s@.skip(*old(pos) as int)) is None,
        },
{
    let tag = match read_tag(s, n, pos) {
        Ok(c) => c,
        Err(e) => {
            return Err(e);
        },
    };
    if tag == 'S' {
        Ok(CommandType::Start)
    } else if tag == 'O' {
        Ok(CommandType::Stop)
    } else if tag == 'R' {
        Ok(CommandType::Restart)
    } else if tag == 'P' {
        Ok(CommandType::Payout)
    } else if tag == 'A' {
        Ok(CommandType::PayoutAll)
    } else if tag == 'B' {
        Ok(CommandType::RebootServer)
    } else if tag == 'X' {
        match read_str(s, n, pos) {
            Ok(v) => Ok(CommandType::Custom(v)),
            Err(e) => Err(e),
        }
    } else {
        Err(DecodeError)
    }
}

fn read_target(s: &str, n: usize, pos: &mut usize) -> (r: Result<CommandTarget, DecodeError>)
    requires
        s@.len() == n as nat,
        *old(pos) <= n,
    ensures
        *old(pos) <= *final (pos) <= n,
        match r {
            Ok(t) => p_target(s@.skip(*old(pos) as int)) == Some(
                (t@, s@.skip(*final (pos) as int)),
            ),
            Err(_) => p_target(s@.skip(*old(pos) as int)) is None,
        },
{
    let tag = match read_tag(s, n, pos) {
        Ok(c) => c,
        Err(e) => {
            return Err(e);
        },
    };
    if tag == 'A' {
        Ok(CommandTarget::AllNodes)
    } else if tag == 'S' {
        Ok(CommandTarget::Server)
    } else if tag == 'N' {
        match read_str(s, n, pos) {
            Ok(v) => Ok(CommandTarget::Node(v)),
            Err(e) => Err(e),
        }
    } else {
        Err(DecodeError)
    }
}

/// The model of an optional parameter list value.
pub open spec fn params_opt_view(o: Option<Vec<(String, String)>>) -> Option<
    Seq<(Seq<char>, Seq<char>)>,
> {
    match o {
        None => None,
        Some(v) => Some(pairs_view(v@)),
    }
}

fn read_params(s: &str, n: usize, pos: &mut usize) -> (r: Result<
    Option<Vec<(String, String)>>,
    DecodeError,
>)
    requires
        s@.len() == n as nat,
        *old(pos) <= n,
    ensures
        *old(pos) <= *final (pos) <= n,
        match r {
            Ok(o) => p_params(s@.skip(*old(pos) as int)) == Some(
                (params_opt_view(o), s@.skip(*final (pos) as int)),
            ),
            Err(_) => p_params(s@.skip(*old(pos) as int)) is None,
        },
{
    let ghost t = s@.skip(*pos as int);
    let tag = match read_tag(s, n, pos) {
        Ok(c) => c,
        Err(e) => {
            return Err(e);
        },
    };
    if tag == 'N' {
        return Ok(None);
    }
    if tag != 'S' {
        return Err(DecodeError);
    }
    let cnt: u64 = match read_num(s, n, pos) {
        Ok(x) => x,
        Err(e) => {
            return Err(e);
        },
    };
    let ghost t1 = s@.skip(*pos as int);
    let mut acc: Vec<(String, String)> = Vec::new();
    let mut j: u64 = 0;
    while j < cnt
        invariant
            s@.len() == n as nat,
            *old(pos) <= *pos <= n,
            t == s@.skip(*old(pos) as int),
            j <= cnt,
            p_params(t) == (match p_pairs((cnt - j) as nat, s@.skip(*pos as int)) {
                None => None::<(Option<Seq<(Seq<char>, Seq<char>)>>, Seq<char>)>,
                Some((tail, rr)) => Some((Some(pairs_view(acc@) + tail), rr)),
            }),
        decreases cnt - j,
    {
        let ghost sj = s@.skip(*pos as int);
        let k = match read_str(s, n, pos) {
            Ok(k) => k,
            Err(e) => {
                return Err(e);
            },
        };
        let v = match read_str(s, n, pos) {
            Ok(v) => v,
            Err(e) => {
                return Err(e);
            },
        };
        proof {
            let ghost old_acc = acc@;
            assert(pairs_view((acc@.push((k, v)))) =~= pairs_view(acc@) + seq![(k@, v@)]);
        }
        let ghost old_pairs = pairs_view(acc@);
        acc.push((k, v));
        j = j + 1;
        proof {
            assert(pairs_view(acc@) =~= old_pairs + seq![(k@, v@)]);
            if p_pairs((cnt - j) as nat, s@.skip(*pos as int)) is Some {
                let (tail, rr) = p_pairs((cnt - j) as nat, s@.skip(*pos as int))->Some_0;
                assert(old_pairs + (seq![(k@, v@)] + tail) =~= (old_pairs + seq![(k@, v@)])
                    + tail);
            }
        }
    }
    proof {
        assert(p_pairs(0, s@.skip(*pos as int)) == Some(
            (Seq::<(Seq<char>, Seq<char>)>::empty(), s@.skip(*pos as int)),
        ));
        assert(pairs_view(acc@) + Seq::<(Seq<char>, Seq<char>)>::empty() =~= pairs_view(acc@));
    }
    Ok(Some(acc))
}

fn read_command(s: &str, n: usize, pos: &mut usize) -> (r: Result<Command, DecodeError>)
    requires
        s@.len() == n as nat,
        *old(pos) <= n,
    ensures
        *old(pos) <= *final (pos) <= n,
        match r {
            Ok(c) => p_command(s@.skip(*old(pos) as int)) == Some(
                (c@, s@.skip(*final (pos) as int)),
            ),
            Err(_) => p_command(s@.skip(*old(pos) as int)) is None,
        },
{
    let id = match read_str(s, n, pos) {
        Ok(v) => v,
        Err(e) => {
            return Err(e);
        },
    };
    let k = match read_type(s, n, pos) {
        Ok(v) => v,
        Err(e) => {
            return Err(e);
        },
    };
    let tgt = match read_target(s, n, pos) {
        Ok(v) => v,
        Err(e) => {
            return Err(e);
        },
    };
    let ps = match read_params(s, n, pos) {
        Ok(v) => v,
        Err(e) => {
            return Err(e);
        },
    };
    let ts = match read_num(s, n, pos) {
        Ok(v) => v,
        Err(e) => {
            return Err(e);
        },
    };
    Ok(Command { id, command_type: k, target: tgt, parameters: ps, timestamp: ts })
}

fn read_response(s: &str, n: usize, pos: &mut usize) -> (r: Result<CommandResponse, DecodeError>)
    requires
        s@.len() == n as nat,
        *old(pos) <= n,
    ensures
        *old(pos) <= *final (pos) <= n,
        match r {
            Ok(c) => p_response(s@.skip(*old(pos) as int)) == Some(
                (c@, s@.skip(*final (pos) as int)),
            ),
            Err(_) => p_response(s@.skip(*old(pos) as int)) is None,
        },
{
    let id = match read_str(s, n, pos) {
        Ok(v) => v,
        Err(e) => {
            return Err(e);
        },
    };
    let st = match read_status(s, n, pos) {
        Ok(v) => v,
        Err(e) => {
            return Err(e);
        },
    };
    let res = match read_opt(s, n, pos) {
        Ok(v) => v,
        Err(e) => {
            return Err(e);
        },
    };
    let err = match read_opt(s, n, pos) {
        Ok(v) => v,
        Err(e) => {
            return Err(e);
        },
    };
    let ts = match read_num(s, n, pos) {
        Ok(v) => v,
        Err(e) => {
            return Err(e);
        },
    };
    Ok(CommandResponse { command_id: id, status: st, result: res, error: err, timestamp: ts })
}

/// Parses a whole string of decimal digits as a number. Yields the value
/// exactly when the string is nonempty, all digits, and the value fits a
/// machine word.
pub fn parse_u64_dec(s: &str) -> (r: Option<u64>)
    ensures
        match r {
            Some(x) => s@.len() > 0 && all_digits(s@) && dec_val(s@) == x as nat,
            None => s@.len() == 0 || !all_digits(s@) || dec_val(s@) > u64::MAX,
        },
{
    let n: usize = s.unicode_len();
    if n == 0 {
        return None;
    }
    let mut i: usize = 0;
    let mut acc: u64 = 0;
    while i < n
        invariant
            i <= n,
            s@.len() == n as nat,
            forall|j: int| 0 <= j < i ==> is_digit(s@[j]),
            acc as nat == dec_val(s@.take(i as int)),
        decreases n - i,
    {
        let c = s.get_char(i);
        let u: u32 = c as u32;
        if !(48 <= u && u <= 57) {
            return None;
        }
        let d: u64 = ((u - 48) as u8) as u64;
        proof {
            lemma_dec_val_step(s@, i as int);
        }
        if acc > u64::MAX / 10 {
            proof {
                lemma_dec_val_take_le(s@, i + 1);
            }
            return None;
        }
        let acc10: u64 = acc * 10;
        if d > u64::MAX - acc10 {
            proof {
                lemma_dec_val_take_le(s@, i + 1);
            }
            return None;
        }
        acc = acc10 + d;
        i = i + 1;
    }
    proof {
        assert(s@.take(n as int) =~= s@);
    }
    Some(acc)
}

/// Decodes one envelope frame. Succeeds exactly when the whole frame is a
/// well-formed encoding, and then yields the encoded message.
pub fn decode_message(s: &str) -> (r: Result<CommandMessage, DecodeError>)
    ensures
        spec_decode_message(s@) matches Some(m) ==> (r matches Ok(v) && v@ == m),
        spec_decode_message(s@) is None ==> r is Err,
{
    let n: usize = s.unicode_len();
    let mut pos: usize = 0;
    proof {
        assert(s@.skip(0) =~= s@);
    }
    let tag = match read_tag(s, n, &mut pos) {
        Ok(c) => c,
        Err(e) => {
            return Err(e);
        },
    };
    if tag == 'C' {
        match read_command(s, n, &mut pos) {
            Ok(c) => {
                if pos == n {
                    proof {
                        assert(s@.skip(pos as int).len() == 0);
                    }
                    Ok(CommandMessage::Command(c))
                } else {
                    Err(DecodeError)
                }
            },
            Err(e) => Err(e),
        }
    } else if tag == 'R' {
        match read_response(s, n, &mut pos) {
            Ok(c) => {
                if pos == n {
                    proof {
                        assert(s@.skip(pos as int).len() == 0);
                    }
                    Ok(CommandMessage::Response(c))
                } else {
                    Err(DecodeError)
                }
            },
            Err(e) => Err(e),
        }
    } else {
        Err(DecodeError)
    }
}

} // verus!
