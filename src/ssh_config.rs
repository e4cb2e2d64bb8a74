use vstd::prelude::*;

verus! {

pub const BEGIN_MARKER: &'static str = "# BEGIN RepoTaskRun";

pub const END_MARKER: &'static str = "# END RepoTaskRun";

/// `pat` occurs in `s` at position `i`.
pub open spec fn occurs_at(s: Seq<char>, pat: Seq<char>, i: int) -> bool {
    0 <= i && i + pat.len() <= s.len() && s.subrange(i, i + pat.len()) == pat
}

/// `pat` occurs somewhere in `s`.
pub open spec fn contains_text(s: Seq<char>, pat: Seq<char>) -> bool {
    exists|i: int| occurs_at(s, pat, i)
}

/// The lines kept when every block from a line holding `begin` to a line holding `end`
/// (both included) is dropped; `inside` says whether a block is open before `lines`.
pub open spec fn kept_lines(lines: Seq<Seq<char>>, begin: Seq<char>, end: Seq<char>, inside: bool) -> Seq<
    Seq<char>,
>
    decreases lines.len(),
{
    if lines.len() == 0 {
        Seq::empty()
    } else {
        let l = lines[0];
        let rest = lines.drop_first();
        if contains_text(l, begin) {
            kept_lines(rest, begin, end, true)
        } else if contains_text(l, end) {
            kept_lines(rest, begin, end, false)
        } else if inside {
            kept_lines(rest, begin, end, true)
        } else {
            seq![l] + kept_lines(rest, begin, end, false)
        }
    }
}

/// Does `pat` occur in `s`?
pub fn contains_str(s: &str, pat: &str) -> (r: bool)
    ensures
        r == contains_text(s@, pat@),
{
    let n = s.unicode_len();
    let m = pat.unicode_len();
    if m > n {
        assert forall|i: int| !occurs_at(s@, pat@, i) by {}
        return false;
    }
    let mut i: usize = 0;
    while i <= n - m
        invariant
            n == s@.len(),
            m == pat@.len(),
            m <= n,
            i <= n - m + 1,
            forall|k: int| 0 <= k < i ==> !occurs_at(s@, pat@, k),
        decreases n - m + 1 - i,
    {
        let mut j: usize = 0;
        let mut same = true;
        while j < m && same
            invariant
                n == s@.len(),
                m == pat@.len(),
                i + m <= n,
                j <= m,
                same ==> forall|q: int| 0 <= q < j ==> s@[i + q] == pat@[q],
                !same ==> j > 0 && s@[i + j - 1] != pat@[j - 1],
            decreases m - j, if same { 1int } else { 0int },
        {
            if s.get_char(i + j) != pat.get_char(j) {
                same = false;
            }
            j = j + 1;
        }
        if same {
            assert(s@.subrange(i as int, i + m) =~= pat@);
            assert(occurs_at(s@, pat@, i as int));
            return true;
        }
        assert(s@.subrange(i as int, i + m)[j - 1] != pat@[j - 1]);
        i = i + 1;
    }
    assert forall|k: int| !occurs_at(s@, pat@, k) by {
        if 0 <= k && k + m <= n {
            assert(k < i);
        }
    }
    false
}

/// Drops the blocks between the marker lines of this agent from the lines of an SSH
/// configuration.
pub fn strip_marked_block(lines: &Vec<String>) -> (r: Vec<String>)
    ensures
        crate::task::strings_view(r@) == kept_lines(
            crate::task::strings_view(lines@),
            BEGIN_MARKER@,
            END_MARKER@,
            false,
        ),
{
    let ghost all = crate::task::strings_view(lines@);
    let mut out: Vec<String> = Vec::new();
    let mut inside = false;
    let mut i: usize = 0;
    assert(all.skip(0) =~= all);
    assert(crate::task::strings_view(out@) + kept_lines(all, BEGIN_MARKER@, END_MARKER@, false)
        =~= kept_lines(all, BEGIN_MARKER@, END_MARKER@, false));
    while i < lines.len()
        invariant
            i <= lines@.len(),
            all == crate::task::strings_view(lines@),
            crate::task::strings_view(out@) + kept_lines(
                all.skip(i as int),
                BEGIN_MARKER@,
                END_MARKER@,
                inside,
            ) == kept_lines(all, BEGIN_MARKER@, END_MARKER@, false),
        decreases lines.len() - i,
    {
        let ghost before = crate::task::strings_view(out@);
        let line = lines[i].as_str();
        assert(all.skip(i as int).drop_first() =~= all.skip(i + 1));
        assert(all.skip(i as int)[0] == line@);
        if contains_str(line, BEGIN_MARKER) {
            inside = true;
        } else if contains_str(line, END_MARKER) {
            inside = false;
        } else if !inside {
            out.push(lines[i].clone());
            assert(crate::task::strings_view(out@) =~= before + seq![line@]);
            assert(crate::task::strings_view(out@) + kept_lines(
                all.skip(i + 1),
                BEGIN_MARKER@,
                END_MARKER@,
                inside,
            ) =~= before + kept_lines(all.skip(i as int), BEGIN_MARKER@, END_MARKER@, false));
        }
        i = i + 1;
    }
    assert(kept_lines(all.skip(i as int), BEGIN_MARKER@, END_MARKER@, inside) =~= Seq::<
        Seq<char>,
    >::empty());
    assert(crate::task::strings_view(out@) + Seq::<Seq<char>>::empty() =~= crate::task::strings_view(out@));
    out
}

} // verus!
