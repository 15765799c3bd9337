use vstd::prelude::*;
use vstd::string::{StrSliceExecFns, StringExecFns};

use crate::candidates::{candidates_of, lemma_deep_view_push, sort_and_dedup, strictly_sorted};
use crate::error::Error;

verus! {

/// The history reader and committer. The library drives it; the surrounding
/// binary implements it by invoking the version-control tool, and tests
/// implement it with deterministic fakes.
pub trait Git {
    /// Runs the commit operation with the assembled message, returning the
    /// tool's output on success.
    fn commit(&self, message: &str) -> Result<String, Error>;

    /// Runs one formatted history query, optionally limited to the most
    /// recent `max_count` entries, returning its output lines.
    fn log(&self, format_string: &str, max_count: &Option<i32>) -> Result<Vec<String>, Error>;
}

/// Decides the outcome of a commit invocation from its exit status and
/// captured streams: success yields the tool's standard output verbatim,
/// failure carries the combined standard output and standard error.
pub fn commit_outcome(success: bool, out: String, err: String) -> (r: Result<String, Error>)
    ensures
        success ==> (r matches Ok(s) && s@ == out@),
        !success ==> (r matches Err(e) && e matches Error::Commit(m) && m@ == out@ + "\n"@
            + err@),
{
    if success {
        Ok(out)
    } else {
        let mut combined = out;
        combined.append("\n");
        combined.append(err.as_str());
        Err(Error::Commit(combined))
    }
}

/// Names the Unicode white-space test on a character.
pub uninterp spec fn is_white(c: char) -> bool;

/// Relies on char::is_whitespace: whether the character has the Unicode
/// White_Space property. The result depends on the character alone.
#[verifier::external_body]
fn char_is_whitespace(c: char) -> (r: bool)
    ensures
        r == is_white(c),
{
    c.is_whitespace()
}

/// The string with its leading white space removed.
pub open spec fn trim_front(s: Seq<char>) -> Seq<char>
    decreases s.len(),
{
    if s.len() > 0 && is_white(s[0]) {
        trim_front(s.drop_first())
    } else {
        s
    }
}

/// The string with its trailing white space removed.
pub open spec fn trim_back(s: Seq<char>) -> Seq<char>
    decreases s.len(),
{
    if s.len() > 0 && is_white(s.last()) {
        trim_back(s.drop_last())
    } else {
        s
    }
}

/// The string with white space removed from both ends.
pub open spec fn trimmed(s: Seq<char>) -> Seq<char> {
    trim_back(trim_front(s))
}

/// Removes white space from both ends of a string.
fn trim_str<'a>(s: &'a str) -> (r: &'a str)
    ensures
        r@ == trimmed(s@),
{
    let len = s.unicode_len();
    let mut start: usize = 0;
    proof {
        assert(s@.skip(0) =~= s@);
    }
    while start < len && char_is_whitespace(s.get_char(start))
        invariant
            start <= len,
            len == s@.len(),
            trim_front(s@) == trim_front(s@.skip(start as int)),
        decreases len - start,
    {
        proof {
            let f = s@.skip(start as int);
            assert(f[0] == s@[start as int]);
            assert(f.drop_first() =~= s@.skip(start as int + 1));
        }
        start = start + 1;
    }
    proof {
        let f = s@.skip(start as int);
        if start < len {
            assert(f[0] == s@[start as int]);
            assert(!is_white(f[0]));
        } else {
            assert(f.len() == 0);
        }
        assert(trim_front(f) == f);
        assert(trim_front(s@) == s@.skip(start as int));
    }
    let ghost f = s@.skip(start as int);
    let mut end: usize = len;
    proof {
        assert(f.take(len - start) =~= f);
    }
    while end > start && char_is_whitespace(s.get_char(end - 1))
        invariant
            start <= end <= len,
            len == s@.len(),
            f == s@.skip(start as int),
            trim_back(f) == trim_back(f.take(end - start)),
        decreases end,
    {
        proof {
            let t = f.take(end - start);
            assert(t.last() == s@[end - 1]);
            assert(t.drop_last() =~= f.take(end - 1 - start));
        }
        end = end - 1;
    }
    proof {
        let t = f.take(end - start);
        if end > start {
            assert(t.last() == s@[end - 1]);
            assert(!is_white(t.last()));
        } else {
            assert(t.len() == 0);
        }
        assert(trim_back(t) == t);
    }
    let r = s.substring_char(start, end);
    proof {
        assert(r@ =~= f.take(end - start));
    }
    r
}

/// The lines of one history query after cleaning: each line trimmed, blank
/// lines dropped.
pub open spec fn nonblank_trimmed(lines: Seq<Seq<char>>) -> Seq<Seq<char>> {
    lines.map_values(|l: Seq<char>| trimmed(l)).filter(|l: Seq<char>| l.len() > 0)
}

/// Turns the raw output lines of one history query into its result: each
/// line whitespace-trimmed, blank lines dropped, the remainder sorted
/// ascending with duplicates removed.
pub fn process_log_lines(lines: Vec<String>) -> (r: Vec<String>)
    ensures
        r.deep_view() == candidates_of(nonblank_trimmed(lines.deep_view())),
        strictly_sorted(r.deep_view()),
{
    broadcast use Seq::lemma_filter_push;

    let ghost dv = lines.deep_view();
    let ghost tr = |l: Seq<char>| trimmed(l);
    let ghost nb = |l: Seq<char>| l.len() > 0;
    let mut cleaned: Vec<String> = Vec::new();
    let mut i: usize = 0;
    proof {
        assert(cleaned.deep_view() =~= Seq::<Seq<char>>::empty());
        assert(dv.take(0) =~= Seq::<Seq<char>>::empty());
        assert(dv.take(0).map_values(tr) =~= Seq::<Seq<char>>::empty());
        assert(dv.take(0).map_values(tr).filter(nb) =~= Seq::<Seq<char>>::empty()) by {
            reveal_with_fuel(Seq::filter, 1);
        }
    }
    while i < lines.len()
        invariant
            i as int <= dv.len(),
            lines.deep_view() == dv,
            lines@.len() == dv.len(),
            tr == (|l: Seq<char>| trimmed(l)),
            nb == (|l: Seq<char>| l.len() > 0),
            cleaned.deep_view() == dv.take(i as int).map_values(tr).filter(nb),
        decreases dv.len() - i,
    {
        let line: &String = &lines[i];
        proof {
            assert(dv[i as int] == lines@[i as int]@);
        }
        let t = trim_str(line.as_str());
        proof {
            let m0 = dv.take(i as int).map_values(tr);
            let m1 = dv.take(i as int + 1).map_values(tr);
            assert(dv.take(i as int + 1) =~= dv.take(i as int).push(dv[i as int]));
            assert(m1 =~= m0.push(trimmed(dv[i as int])));
            m0.lemma_filter_push(trimmed(dv[i as int]), nb);
        }
        if !t.is_empty() {
            let owned = t.to_owned();
            let ghost pre = cleaned;
            cleaned.push(owned);
            proof {
                lemma_deep_view_push(pre, cleaned, owned);
            }
        }
        i = i + 1;
    }
    proof {
        assert(dv.take(dv.len() as int) =~= dv);
    }
    sort_and_dedup(cleaned)
}

} // verus!
