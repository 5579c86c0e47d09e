use vstd::prelude::*;

verus! {

use crate::ledger::{Reservation, ResData, opt_res_view};
use crate::numbers::{all_digits, dec_of, dec_str_to_u64, dec_value, digit_char, digit_of,
    is_digit, lemma_dec_value_nonneg, parse_u64, u64_to_dec};
use crate::text::push_char;

/// The backing record of one reservation, as persisted: the expiry time in
/// decimal, one space, then the owner's proof verbatim (which may itself hold
/// spaces — everything after the first space is the owner).
pub open spec fn record_of(r: ResData) -> Seq<char> {
    dec_of(r.until as nat) + seq![' '] + r.owner
}

/// Position of the first space, or -1 if there is none.
pub open spec fn space_pos(s: Seq<char>) -> int
    decreases s.len(),
{
    if s.len() == 0 {
        -1
    } else if s[0] == ' ' {
        0
    } else {
        let r = space_pos(s.skip(1));
        if r < 0 {
            -1
        } else {
            1 + r
        }
    }
}

pub proof fn lemma_space_pos_from_prefix(s: Seq<char>, i: int)
    requires
        0 <= i <= s.len(),
        forall|k: int| 0 <= k < i ==> s[k] != ' ',
        i < s.len() ==> s[i] == ' ',
    ensures
        space_pos(s) == if i == s.len() {
            -1
        } else {
            i
        },
    decreases s.len(),
{
    if s.len() == 0 {
    } else if s[0] == ' ' {
        assert(i == 0);
    } else {
        let tail = s.skip(1);
        assert(forall|k: int| 0 <= k < i - 1 ==> tail[k] == s[k + 1] && s[k + 1] != ' ');
        if i < s.len() {
            assert(tail[i - 1] == s[i]);
        }
        lemma_space_pos_from_prefix(tail, i - 1);
    }
}

/// What a stored record means: everything before the first space must be a
/// number that fits, everything after it is the owner; anything else is not a
/// record.
pub open spec fn spec_parse_record(s: Seq<char>) -> Option<ResData> {
    let p = space_pos(s);
    if p < 0 {
        None
    } else {
        match dec_str_to_u64(s.take(p)) {
            Some(v) => Some(ResData { owner: s.skip(p + 1), until: v }),
            None => None,
        }
    }
}

/// Writes the backing record for one reservation.
pub fn serialize_reservation(r: &Reservation) -> (s: String)
    ensures
        s@ == record_of(r@),
{
    let mut out = u64_to_dec(r.reserved_until);
    push_char(&mut out, ' ');
    out.append(r.reserved_by.as_str());
    proof {
        assert(out@ =~= record_of(r@));
    }
    out
}

/// Reads a backing record back; `None` exactly on text that no reservation
/// writes.
pub fn parse_reservation(s: &String) -> (r: Option<Reservation>)
    ensures
        opt_res_view(r) == spec_parse_record(s@),
{
    let len = s.as_str().unicode_len();
    let mut p: usize = 0;
    loop
        invariant_except_break
            p <= len,
            len == s@.len(),
            forall|k: int| 0 <= k < p ==> s@[k] != ' ',
        ensures
            p <= len,
            len == s@.len(),
            forall|k: int| 0 <= k < p ==> s@[k] != ' ',
            p == len || s@[p as int] == ' ',
        decreases len - p,
    {
        if p == len {
            break;
        }
        if s.as_str().get_char(p) == ' ' {
            break;
        }
        p = p + 1;
    }
    proof {
        lemma_space_pos_from_prefix(s@, p as int);
    }
    if p == len {
        return None;
    }
    let digits = s.as_str().substring_char(0, p);
    proof {
        assert(digits@ =~= s@.take(p as int));
    }
    match parse_u64(digits) {
        None => None,
        Some(v) => {
            let owner = s.as_str().substring_char(p + 1, len);
            proof {
                assert(owner@ =~= s@.skip(p + 1));
            }
            Some(Reservation { reserved_by: owner.to_owned(), reserved_until: v })
        },
    }
}

proof fn lemma_dec_of_digits(n: nat)
    ensures
        all_digits(dec_of(n)),
        dec_of(n).len() >= 1,
        is_digit(dec_of(n)[0]),
    decreases n,
{
    if n >= 10 {
        lemma_dec_of_digits(n / 10);
        let prefix = dec_of(n / 10);
        let whole = dec_of(n);
        assert(whole == prefix.push(digit_char((n % 10) as int)));
        assert(forall|k: int| 0 <= k < prefix.len() ==> whole[k] == prefix[k]);
        assert(is_digit(whole[whole.len() - 1]));
    }
}

proof fn lemma_dec_value_of_dec_of(n: nat)
    ensures
        dec_value(dec_of(n)) == n,
    decreases n,
{
    if n < 10 {
        assert(dec_of(n) == seq![digit_char(n as int)]);
        assert(dec_value(dec_of(n)) == dec_value(dec_of(n).drop_last()) * 10 + digit_of(
            dec_of(n).last(),
        ));
        assert(dec_of(n).drop_last() =~= Seq::<char>::empty());
    } else {
        lemma_dec_value_of_dec_of(n / 10);
        let prefix = dec_of(n / 10);
        let whole = dec_of(n);
        assert(whole == prefix.push(digit_char((n % 10) as int)));
        assert(whole.drop_last() =~= prefix);
        assert(dec_value(whole) == dec_value(prefix) * 10 + digit_of(whole.last()));
        assert(digit_of(digit_char((n % 10) as int)) == n % 10);
    }
}

/// Round trip: every record a reservation writes parses back to exactly that
/// reservation, whatever the owner string holds and however large the expiry
/// is.
pub proof fn lemma_record_round_trip(r: ResData)
    ensures
        spec_parse_record(record_of(r)) == Some(r),
{
    let s = record_of(r);
    let d = dec_of(r.until as nat);
    lemma_dec_of_digits(r.until as nat);
    lemma_dec_value_of_dec_of(r.until as nat);
    assert(forall|k: int| 0 <= k < d.len() ==> s[k] == d[k] && is_digit(d[k]));
    assert(forall|k: int| 0 <= k < d.len() ==> s[k] != ' ');
    assert(s[d.len() as int] == ' ');
    lemma_space_pos_from_prefix(s, d.len() as int);
    assert(space_pos(s) == d.len());
    assert(s.take(d.len() as int) =~= d);
    assert(s.skip(d.len() as int + 1) =~= r.owner);
    assert(d[0] != '+');
    lemma_dec_value_nonneg(d);
    assert(dec_str_to_u64(d) == Some(r.until));
    assert(spec_parse_record(s) == Some(ResData { owner: r.owner, until: r.until }));
    assert(ResData { owner: r.owner, until: r.until } =~= r);
}

} // verus!
