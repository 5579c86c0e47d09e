use vstd::prelude::*;

verus! {

use crate::numbers::dec_str_to_u64;
use crate::numbers::parse_u64;
use crate::text::push_char;

/// The whitespace that separates node identifiers in the configured pool:
/// the ASCII whitespace characters. A code point outside this set — a
/// non-breaking space, say — counts as part of a word here, where a full
/// Unicode splitter would break.
pub open spec fn is_space(c: char) -> bool {
    c == ' ' || c == '\t' || c == '\n' || c == '\r' || c == '\u{b}' || c == '\u{c}'
}

fn is_space_exec(c: char) -> (r: bool)
    ensures
        r == is_space(c),
{
    c == ' ' || c == '\t' || c == '\n' || c == '\r' || c == '\u{b}' || c == '\u{c}'
}

/// How many characters the leading run of non-whitespace has.
pub open spec fn run_len(s: Seq<char>) -> int
    decreases s.len(),
{
    if s.len() == 0 || is_space(s[0]) {
        0
    } else {
        1 + run_len(s.skip(1))
    }
}

/// Pins `run_len` to what a scan finds: the first `m` characters are not
/// whitespace and the scan stopped at the end or at whitespace.
pub proof fn lemma_run_len_exact(s: Seq<char>, m: int)
    requires
        0 <= m <= s.len(),
        forall|k: int| 0 <= k < m ==> !is_space(#[trigger] s[k]),
        m < s.len() ==> is_space(s[m]),
    ensures
        run_len(s) == m,
    decreases s.len(),
{
    if s.len() == 0 {
    } else if is_space(s[0]) {
        assert(m == 0);
    } else {
        let tail = s.skip(1);
        assert(forall|k: int| 0 <= k < m - 1 ==> tail[k] == s[k + 1] && !is_space(s[k + 1]));
        if m < s.len() && m >= 1 {
            assert(tail[m - 1] == s[m]);
        }
        lemma_run_len_exact(tail, m - 1);
    }
}

/// The maximal runs of a string not holding any of the `is_space`
/// characters, in order: what splitting on that whitespace set yields.
pub open spec fn split_ws(s: Seq<char>) -> Seq<Seq<char>>
    decreases s.len(),
{
    if s.len() == 0 {
        Seq::empty()
    } else if is_space(s[0]) {
        split_ws(s.skip(1))
    } else {
        let k = run_len(s);
        if 1 <= k <= s.len() {
            seq![s.take(k)] + split_ws(s.skip(k))
        } else {
            Seq::empty()
        }
    }
}

/// Splits on the ASCII whitespace set `is_space`: every maximal run between
/// separators, in order, nothing else.
pub fn split_whitespace_runs(s: &String) -> (r: Vec<String>)
    ensures
        r.deep_view() == split_ws(s@),
{
    let len = s.as_str().unicode_len();
    let mut out: Vec<String> = Vec::new();
    let mut i: usize = 0;
    proof {
        assert(s@.skip(0) =~= s@);
        assert(out.deep_view() + split_ws(s@) =~= split_ws(s@));
    }
    while i < len
        invariant
            i <= len,
            len == s@.len(),
            out.deep_view() + split_ws(s@.skip(i as int)) =~= split_ws(s@),
        decreases len - i,
    {
        let c = s.as_str().get_char(i);
        if is_space_exec(c) {
            proof {
                assert(s@.skip(i as int).skip(1) =~= s@.skip(i + 1));
            }
            i = i + 1;
        } else {
            let ghost rest = s@.skip(i as int);
            let start = i;
            let mut token = String::new();
            let mut j = i;
            loop
                invariant_except_break
                    start <= j <= len,
                    len == s@.len(),
                    start < len,
                    token@ =~= s@.subrange(start as int, j as int),
                    forall|k: int| start <= k < j ==> !is_space(#[trigger] s@[k]),
                ensures
                    start <= j <= len,
                    len == s@.len(),
                    start < len,
                    token@ =~= s@.subrange(start as int, j as int),
                    forall|k: int| start <= k < j ==> !is_space(#[trigger] s@[k]),
                    j == len || is_space(s@[j as int]),
                decreases len - j,
            {
                if j == len {
                    break;
                }
                let cj = s.as_str().get_char(j);
                if is_space_exec(cj) {
                    break;
                }
                push_char(&mut token, cj);
                proof {
                    assert(s@.subrange(start as int, j + 1) =~= s@.subrange(
                        start as int,
                        j as int,
                    ).push(s@[j as int]));
                }
                j = j + 1;
            }
            proof {
                assert(forall|k: int|
                    0 <= k < j - start ==> rest[k] == s@[k + start] && !is_space(
                        #[trigger] rest[k],
                    ));
                if j < len {
                    assert(rest[j - start] == s@[j as int]);
                }
                lemma_run_len_exact(rest, j - start);
                assert(rest.take(j - start) =~= s@.subrange(start as int, j as int));
                assert(rest.skip(j - start) =~= s@.skip(j as int));
                assert(split_ws(rest) =~= seq![token@] + split_ws(s@.skip(j as int)));
            }
            let ghost before = out.deep_view();
            out.push(token);
            proof {
                assert(out.deep_view() =~= before.push(s@.subrange(
                    start as int,
                    j as int,
                )));
                assert(out.deep_view() + split_ws(s@.skip(j as int)) =~= split_ws(s@));
            }
            i = j;
        }
    }
    proof {
        assert(s@.skip(len as int) =~= Seq::<char>::empty());
        assert(out.deep_view() + split_ws(s@.skip(len as int)) =~= out.deep_view());
    }
    out
}

/// The address to serve on: the configured value, or every interface.
pub fn hostname(value: Option<String>) -> (r: String)
    ensures
        r@ == match value {
            Some(v) => v@,
            None => "0.0.0.0"@,
        },
{
    match value {
        Some(v) => v,
        None => String::from_str("0.0.0.0"),
    }
}

/// The port to serve on: the configured value, or the fixed default.
pub fn port(value: Option<String>) -> (r: String)
    ensures
        r@ == match value {
            Some(v) => v@,
            None => "35963"@,
        },
{
    match value {
        Some(v) => v,
        None => String::from_str("35963"),
    }
}

/// Where long-lived state lives: the configured directory, or the fixed
/// default.
pub fn datadir(value: Option<String>) -> (r: String)
    ensures
        r@ == match value {
            Some(v) => v@,
            None => "/var/lib/xnode-demo"@,
        },
{
    match value {
        Some(v) => v,
        None => String::from_str("/var/lib/xnode-demo"),
    }
}

/// Where reservation records live: the configured directory, or a directory
/// under the data directory.
pub fn reservationsdir(value: Option<String>, data_dir: &String) -> (r: String)
    ensures
        r@ == match value {
            Some(v) => v@,
            None => data_dir@ + "/reservation"@,
        },
{
    match value {
        Some(v) => v,
        None => {
            let mut out = data_dir.clone();
            out.append("/reservation");
            out
        },
    }
}

/// How long a reservation lasts, in seconds: the configured value where it
/// parses as a number, one hour otherwise.
pub fn reservationduration(value: Option<String>) -> (r: u64)
    ensures
        r == match value {
            Some(v) => match dec_str_to_u64(v@) {
                Some(d) => d,
                None => 3600u64,
            },
            None => 3600u64,
        },
{
    match value {
        Some(v) => match parse_u64(v.as_str()) {
            Some(d) => d,
            None => 3600,
        },
        None => 3600,
    }
}

/// The configured pool of reservable node identifiers: the whitespace
/// separated words of the configured value; empty when nothing is configured.
pub fn xnodes(value: Option<String>) -> (r: Vec<String>)
    ensures
        r.deep_view() == match value {
            Some(v) => split_ws(v@),
            None => Seq::<Seq<char>>::empty(),
        },
{
    match value {
        Some(v) => split_whitespace_runs(&v),
        None => {
            let out: Vec<String> = Vec::new();
            proof {
                assert(out.deep_view() =~= Seq::<Seq<char>>::empty());
            }
            out
        },
    }
}

} // verus!
