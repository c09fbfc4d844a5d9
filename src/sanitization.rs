//! Checks commands bound for the host process: contract data spliced into
//! a command must not add a second command to it.
use vstd::prelude::*;

verus! {

/// Whether `p` occurs in `s`.
pub open spec fn occurs_in(p: Seq<char>, s: Seq<char>) -> bool {
    exists|i: int| 0 <= i && i + p.len() <= s.len() && #[trigger] s.subrange(i, i + p.len()) == p
}

/// The fragments no host command may contain.
pub open spec fn forbidden_fragments() -> Seq<Seq<char>> {
    seq![";send"@, ";savestate"@, ";keygen"@]
}

/// Whether `p` occurs in `s`.
fn contains_text(s: &str, p: &str) -> (r: bool)
    ensures
        r == occurs_in(p@, s@),
{
    let n = s.unicode_len();
    let m = p.unicode_len();
    if m > n {
        assert forall|i: int| 0 <= i && i + p@.len() <= s@.len() implies #[trigger] s@.subrange(
            i,
            i + p@.len(),
        ) != p@ by {}
        return false;
    }
    let mut i: usize = 0;
    while i <= n - m
        invariant
            n == s@.len(),
            m == p@.len(),
            m <= n,
            i <= n - m + 1,
            forall|j: int| 0 <= j < i ==> #[trigger] s@.subrange(j, j + m) != p@,
        decreases n - m + 1 - i,
    {
        let mut k: usize = 0;
        let mut same = true;
        while k < m
            invariant
                n == s@.len(),
                m == p@.len(),
                i + m <= n,
                k <= m,
                same == forall|t: int| 0 <= t < k ==> s@[i + t] == p@[t],
            decreases m - k,
        {
            if s.get_char(i + k) != p.get_char(k) {
                same = false;
            }
            k = k + 1;
        }
        if same {
            assert(s@.subrange(i as int, i + m) =~= p@);
            return true;
        }
        assert(s@.subrange(i as int, i + m) != p@) by {
            let t = choose|t: int| 0 <= t < m && s@[i + t] != p@[t];
            assert(s@.subrange(i as int, i + m)[t] == s@[i + t]);
        }
        i = i + 1;
    }
    false
}

/// Whether a command may be sent to the host: it contains none of the
/// forbidden fragments.
pub fn sanitize_node_console_command(command: &String) -> (r: bool)
    ensures
        r == forall|f: int| 0 <= f < 3 ==> !occurs_in(#[trigger] forbidden_fragments()[f], command@),
{
    let c = command.as_str();
    let a = contains_text(c, ";send");
    let b = contains_text(c, ";savestate");
    let d = contains_text(c, ";keygen");
    proof {
        let ff = forbidden_fragments();
        assert(ff[0] == ";send"@);
        assert(ff[1] == ";savestate"@);
        assert(ff[2] == ";keygen"@);
    }
    !a && !b && !d
}

} // verus!
