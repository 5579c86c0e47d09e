use vstd::prelude::*;

verus! {

use crate::text::push_char;

/// Replacing every occurrence of a pattern, left to right without overlap:
/// what `str::replace` computes.
pub open spec fn spec_replace(s: Seq<char>, pat: Seq<char>, rep: Seq<char>) -> Seq<char>
    decreases s.len(),
    when pat.len() > 0
{
    if s.len() < pat.len() {
        s
    } else if s.take(pat.len() as int) == pat {
        rep + spec_replace(s.skip(pat.len() as int), pat, rep)
    } else {
        seq![s[0]] + spec_replace(s.skip(1), pat, rep)
    }
}

/// Whether the pattern stands at position `i`.
fn match_at(s: &String, i: usize, pat: &str) -> (r: bool)
    requires
        i + pat@.len() <= s@.len(),
        s@.len() <= usize::MAX,
    ensures
        r == (s@.skip(i as int).take(pat@.len() as int) == pat@),
{
    let plen = pat.unicode_len();
    let mut k: usize = 0;
    while k < plen
        invariant
            k <= plen,
            plen == pat@.len(),
            i + plen <= s@.len(),
            s@.len() <= usize::MAX,
            forall|j: int| 0 <= j < k ==> s@[i + j] == pat@[j],
        decreases plen - k,
    {
        let idx = i + k;
        if s.as_str().get_char(idx) != pat.get_char(k) {
            proof {
                assert(s@.skip(i as int).take(plen as int)[k as int] != pat@[k as int]);
            }
            return false;
        }
        k = k + 1;
    }
    proof {
        assert(s@.skip(i as int).take(plen as int) =~= pat@);
    }
    true
}

/// Replaces every occurrence of `pat` in `s` by `rep`, the way `str::replace`
/// does.
pub fn replace_all(s: &String, pat: &str, rep: &str) -> (r: String)
    requires
        pat@.len() > 0,
    ensures
        r@ == spec_replace(s@, pat@, rep@),
{
    let slen = s.as_str().unicode_len();
    let plen = pat.unicode_len();
    let mut out = String::new();
    let mut i: usize = 0;
    proof {
        assert(s@.skip(0) =~= s@);
        assert(out@ + spec_replace(s@, pat@, rep@) =~= spec_replace(s@, pat@, rep@));
    }
    while plen <= slen - i
        invariant
            i <= slen,
            slen == s@.len(),
            plen == pat@.len(),
            plen > 0,
            out@ + spec_replace(s@.skip(i as int), pat@, rep@) =~= spec_replace(s@, pat@, rep@),
        decreases slen - i,
    {
        if match_at(s, i, pat) {
            out.append(rep);
            proof {
                assert(s@.skip(i as int).skip(plen as int) =~= s@.skip(i + plen));
            }
            i = i + plen;
        } else {
            let c = s.as_str().get_char(i);
            proof {
                assert(s@.skip(i as int)[0] == c);
                assert(s@.skip(i as int).skip(1) =~= s@.skip(i + 1));
            }
            push_char(&mut out, c);
            i = i + 1;
        }
    }
    let tail = s.as_str().substring_char(i, slen);
    proof {
        assert(tail@ =~= s@.skip(i as int));
        assert(spec_replace(s@.skip(i as int), pat@, rep@) == s@.skip(i as int));
    }
    out.append(tail);
    out
}

/// The access grant written into a node's configuration for its current
/// controller: the manager host (the base URL without its scheme) grants the
/// controller the forwardable paths; the application host (the base URL
/// without scheme and manager prefix) grants it everything.
pub open spec fn controller_config_of(base_url: Seq<char>, controller: Seq<char>) -> Seq<char> {
    let manager = spec_replace(base_url, "https://"@, Seq::empty());
    let app_host = spec_replace(base_url, "https://manager."@, Seq::empty());
    "services.xnode-auth.domains.\""@ + manager + "\".accessList.\""@ + controller
        + "\" = { paths = \"^(?:\\/config.*|\\/file\\/container:.*|\\/info.*|\\/process\\/container:.*|\\/usage.*|\\/request.*)\"; };\n"@
        + "services.xnode-auth.domains.\""@ + app_host + "\".accessList.\""@ + controller
        + "\" = { };"@
}

/// Builds the access-grant configuration handed to a node when a controller
/// is installed on it.
pub fn controller_config(base_url: &String, controller: &String) -> (r: String)
    ensures
        r@ == controller_config_of(base_url@, controller@),
{
    proof {
        reveal_strlit("https://");
        reveal_strlit("https://manager.");
        reveal_strlit("");
    }
    let manager = replace_all(base_url, "https://", "");
    let app_host = replace_all(base_url, "https://manager.", "");
    let mut out = String::new();
    out.append("services.xnode-auth.domains.\"");
    out.append(manager.as_str());
    out.append("\".accessList.\"");
    out.append(controller.as_str());
    out.append(
        "\" = { paths = \"^(?:\\/config.*|\\/file\\/container:.*|\\/info.*|\\/process\\/container:.*|\\/usage.*|\\/request.*)\"; };\n",
    );
    out.append("services.xnode-auth.domains.\"");
    out.append(app_host.as_str());
    out.append("\".accessList.\"");
    out.append(controller.as_str());
    out.append("\" = { };");
    proof {
        assert(""@ =~= Seq::<char>::empty());
        assert(out@ =~= controller_config_of(base_url@, controller@));
    }
    out
}

} // verus!
