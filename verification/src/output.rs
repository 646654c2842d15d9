//! The name of the file a build writes: the source file's name, without its
//! directories, with each `.cr` in it turned into `.crust`, and `.crust`
//! added where the name would not end in it otherwise. So the build never
//! writes over its source.
use vstd::prelude::*;
use crate::text::{chars_of, string_of};

verus! {

/// The chars after the last `/` (all of them where there is none).
pub open spec fn last_segment(s: Seq<char>) -> Seq<char>
    decreases s.len(),
{
    if s.len() == 0 {
        s
    } else if s.last() == '/' {
        Seq::empty()
    } else {
        last_segment(s.drop_last()).push(s.last())
    }
}

/// Each `.cr`, read from left to right, replaced by `.crust`.
pub open spec fn replace_cr(s: Seq<char>) -> Seq<char>
    decreases s.len(),
{
    if s.len() >= 3 && s[0] == '.' && s[1] == 'c' && s[2] == 'r' {
        ".crust"@ + replace_cr(s.subrange(3, s.len() as int))
    } else if s.len() == 0 {
        s
    } else {
        seq![s[0]] + replace_cr(s.drop_first())
    }
}

/// The text ends in `.crust`.
pub open spec fn ends_in_crust(s: Seq<char>) -> bool {
    s.len() >= 6 && s.subrange(s.len() - 6, s.len() as int) == ".crust"@
}

/// The name of the file that building `file_path` writes: the last path
/// segment with each `.cr` replaced by `.crust`, then `.crust` added unless
/// that already ends in it.
pub open spec fn executable_name_of(file_path: Seq<char>) -> Seq<char> {
    let replaced = replace_cr(last_segment(file_path));
    if ends_in_crust(replaced) {
        replaced
    } else {
        replaced + ".crust"@
    }
}

/// The position just past the last `/` before `i` (0 where there is none).
pub open spec fn segment_start(s: Seq<char>, i: int) -> int
    decreases i,
{
    if i <= 0 {
        0
    } else if s[i - 1] == '/' {
        i
    } else {
        segment_start(s, i - 1)
    }
}

proof fn lemma_segment_start(s: Seq<char>, i: int)
    requires
        0 <= i <= s.len(),
    ensures
        0 <= segment_start(s, i) <= i,
        last_segment(s.take(i)) == s.subrange(segment_start(s, i), i),
    decreases i,
{
    if i > 0 {
        assert(s.take(i).drop_last() =~= s.take(i - 1));
        if s[i - 1] != '/' {
            lemma_segment_start(s, i - 1);
            assert(s.subrange(segment_start(s, i - 1), i) =~= s.subrange(segment_start(s, i - 1), i - 1).push(s[i - 1]));
        } else {
            assert(s.subrange(i, i) =~= Seq::<char>::empty());
        }
    } else {
        assert(s.take(i) =~= Seq::<char>::empty());
        assert(s.subrange(0, 0) =~= Seq::<char>::empty());
    }
}

/// Appends the chars of `.crust`.
fn push_crust(out: &mut Vec<char>)
    ensures
        final(out)@ == old(out)@ + ".crust"@,
{
    proof {
        reveal_strlit(".crust");
    }
    out.push('.');
    out.push('c');
    out.push('r');
    out.push('u');
    out.push('s');
    out.push('t');
    proof {
        assert(final(out)@ =~= old(out)@ + ".crust"@);
    }
}

/// Whether the chars end in `.crust`.
fn chars_end_in_crust(s: &Vec<char>) -> (r: bool)
    ensures
        r == ends_in_crust(s@),
{
    proof {
        reveal_strlit(".crust");
    }
    let n = s.len();
    if n < 6 {
        return false;
    }
    let r = s[n - 6] == '.' && s[n - 5] == 'c' && s[n - 4] == 'r' && s[n - 3] == 'u' && s[n - 2] == 's'
        && s[n - 1] == 't';
    proof {
        if r {
            assert(s@.subrange(n - 6, n as int) =~= ".crust"@);
        } else {
            let t = s@.subrange(n - 6, n as int);
            assert(t[0] != '.' || t[1] != 'c' || t[2] != 'r' || t[3] != 'u' || t[4] != 's' || t[5] != 't');
        }
    }
    r
}

/// The name of the file that building `file_path` writes: the part after
/// the last `/`, with each `.cr` replaced by `.crust`, and `.crust` added
/// where it would not end in it otherwise.
pub fn executable_name(file_path: &str) -> (r: String)
    ensures
        r@ == executable_name_of(file_path@),
{
    let chars = chars_of(file_path);
    let ghost s = chars@;
    let mut start: usize = chars.len();
    while start > 0 && chars[start - 1] != '/'
        invariant
            start <= chars.len(),
            s == chars@,
            segment_start(s, chars.len() as int) == segment_start(s, start as int),
        decreases start,
    {
        start = start - 1;
    }
    proof {
        lemma_segment_start(s, s.len() as int);
        assert(s.take(s.len() as int) =~= s);
    }
    let ghost segment = s.subrange(start as int, s.len() as int);
    let mut out: Vec<char> = Vec::new();
    let mut i: usize = start;
    while i < chars.len()
        invariant
            start <= i <= chars.len(),
            s == chars@,
            segment == s.subrange(start as int, s.len() as int),
            out@ + replace_cr(s.subrange(i as int, s.len() as int)) == replace_cr(segment),
        decreases chars.len() - i,
    {
        let ghost rest = s.subrange(i as int, s.len() as int);
        if chars.len() - i >= 3 && chars[i] == '.' && chars[i + 1] == 'c' && chars[i + 2] == 'r' {
            proof {
                assert(rest.subrange(3, rest.len() as int) =~= s.subrange(i + 3, s.len() as int));
            }
            let ghost before = out@;
            push_crust(&mut out);
            proof {
                assert(out@ + replace_cr(s.subrange(i + 3, s.len() as int)) =~= before + (".crust"@
                    + replace_cr(s.subrange(i + 3, s.len() as int))));
            }
            i = i + 3;
        } else {
            let c = chars[i];
            out.push(c);
            proof {
                assert(rest.drop_first() =~= s.subrange(i + 1, s.len() as int));
            }
            i = i + 1;
        }
    }
    proof {
        assert(s.subrange(i as int, s.len() as int) =~= Seq::<char>::empty());
        assert(out@ =~= replace_cr(segment));
    }
    if !chars_end_in_crust(&out) {
        push_crust(&mut out);
    }
    string_of(&out)
}

} // verus!
