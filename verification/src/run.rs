use vstd::prelude::*;
use vstd::string::StringExecFns;

use crate::candidates::{candidates_of, lemma_deep_view_push, sort_and_dedup, strictly_sorted};
use crate::error::Error;
use crate::git::Git;
use crate::prompt::Prompt;
use crate::structure::{CommitStructure, Trailer, Values};

verus! {

/// One formatted trailer line: the key, one space, the value.
pub open spec fn trailer_line(key: Seq<char>, value: Seq<char>) -> Seq<char> {
    key + " "@ + value
}

/// The lines of one multi-valued trailer group: one line per value, all
/// sharing the key.
pub open spec fn trailer_lines(key: Seq<char>, values: Seq<Seq<char>>) -> Seq<Seq<char>> {
    values.map_values(|v: Seq<char>| trailer_line(key, v))
}

/// The parts joined with the separator between each adjacent pair.
pub open spec fn joined(parts: Seq<Seq<char>>, sep: Seq<char>) -> Seq<char>
    decreases parts.len(),
{
    if parts.len() == 0 {
        Seq::empty()
    } else if parts.len() == 1 {
        parts[0]
    } else {
        parts[0] + sep + joined(parts.drop_first(), sep)
    }
}

/// The final message layout: the free-text message, one blank line, then
/// the trailer-line groups, all joined with newlines.
pub open spec fn assembled(message: Seq<char>, groups: Seq<Seq<char>>) -> Seq<char> {
    joined(seq![message, Seq::<char>::empty()] + groups, "\n"@)
}

proof fn lemma_joined_push(parts: Seq<Seq<char>>, sep: Seq<char>, x: Seq<char>)
    requires
        parts.len() > 0,
    ensures
        joined(parts.push(x), sep) == joined(parts, sep) + sep + x,
    decreases parts.len(),
{
    let p = parts.push(x);
    assert(p[0] == parts[0]);
    if parts.len() == 1 {
        assert(p.drop_first() =~= seq![x]);
        assert(joined(p, sep) == parts[0] + sep + joined(seq![x], sep));
        assert(joined(seq![x], sep) == x);
    } else {
        assert(p.drop_first() =~= parts.drop_first().push(x));
        lemma_joined_push(parts.drop_first(), sep, x);
        assert(parts[0] + sep + (joined(parts.drop_first(), sep) + sep + x) =~= (parts[0] + sep
            + joined(parts.drop_first(), sep)) + sep + x);
    }
}

/// Law: with zero trailer-line groups the assembled output is exactly the
/// free-text message followed by one trailing blank line, nothing else.
pub proof fn lemma_assemble_empty(message: Seq<char>)
    ensures
        assembled(message, Seq::<Seq<char>>::empty()) == message + "\n"@,
{
    let parts = seq![message, Seq::<char>::empty()];
    assert(parts + Seq::<Seq<char>>::empty() =~= parts);
    assert(parts.drop_first() =~= seq![Seq::<char>::empty()]);
    assert(joined(seq![Seq::<char>::empty()], "\n"@) == Seq::<char>::empty());
    assert(parts.len() == 2 && parts[0] == message);
    assert(joined(parts, "\n"@) == message + "\n"@ + Seq::<char>::empty());
    assert(message + "\n"@ + Seq::<char>::empty() =~= message + "\n"@);
}

/// Renders one trailer line from its key and value.
fn render_line(key: &str, value: &str) -> (r: String)
    ensures
        r@ == trailer_line(key@, value@),
{
    let mut r = key.to_owned();
    r.append(" ");
    r.append(value);
    r
}

/// Renders a trailer's prompt label and line key: the name plus a colon.
fn render_key(name: &str) -> (r: String)
    ensures
        r@ == name@ + ":"@,
{
    let mut r = name.to_owned();
    r.append(":");
    r
}

/// Whether every group in the accumulator is a non-empty line group.
pub open spec fn all_groups_nonempty(groups: Seq<Seq<char>>) -> bool {
    forall|k: int| 0 <= k < groups.len() ==> #[trigger] groups[k].len() > 0
}

/// The name of a trailer definition.
pub open spec fn trailer_name(t: Trailer) -> Seq<char> {
    match t {
        Trailer::Text(m) => m.name@,
        Trailer::Select(m) => m.name@,
        Trailer::MultiSelect(m) => m.name@,
    }
}

/// Whether `g` is a line group for the trailer definition `t`: one or more
/// lines, each under the trailer's key — its name plus a colon — joined
/// with newlines; the single-valued trailer shapes carry exactly one line.
pub open spec fn group_for(t: Trailer, g: Seq<char>) -> bool {
    exists|vals: Seq<Seq<char>>|
        vals.len() > 0 && g == #[trigger] joined(trailer_lines(trailer_name(t) + ":"@, vals), "\n"@)
            && ((t is Text || t is Select) ==> vals.len() == 1)
}

/// Whether the groups are line groups of distinct schema trailers, taken in
/// schema order: `picks[k]` is the schema position of the trailer that
/// produced `groups[k]`.
pub open spec fn groups_match(
    trailers: Seq<Trailer>,
    groups: Seq<Seq<char>>,
    picks: Seq<int>,
) -> bool {
    &&& picks.len() == groups.len()
    &&& (forall|k: int| 0 <= k < picks.len() ==> 0 <= #[trigger] picks[k] < trailers.len())
    &&& (forall|k1: int, k2: int| 0 <= k1 < k2 < picks.len() ==> picks[k1] < picks[k2])
    &&& (forall|k: int|
        0 <= k < picks.len() ==> group_for(trailers[picks[k]], #[trigger] groups[k]))
}

proof fn lemma_single_group_for(t: Trailer, key: Seq<char>, value: Seq<char>)
    requires
        key == trailer_name(t) + ":"@,
        t is Text || t is Select,
    ensures
        group_for(t, trailer_line(key, value)),
{
    let vals = seq![value];
    assert(trailer_lines(key, vals) =~= seq![trailer_line(key, value)]);
    assert(joined(trailer_lines(key, vals), "\n"@) == trailer_line(key, value));
}

proof fn lemma_multi_group_for(t: Trailer, key: Seq<char>, vals: Seq<Seq<char>>)
    requires
        key == trailer_name(t) + ":"@,
        vals.len() > 0,
        t is MultiSelect,
    ensures
        group_for(t, joined(trailer_lines(key, vals), "\n"@)),
{
}

proof fn lemma_groups_extend(
    trailers: Seq<Trailer>,
    groups: Seq<Seq<char>>,
    picks: Seq<int>,
    idx: int,
    g: Seq<char>,
)
    requires
        groups_match(trailers, groups, picks),
        forall|k: int| 0 <= k < picks.len() ==> #[trigger] picks[k] < idx,
        0 <= idx < trailers.len(),
        group_for(trailers[idx], g),
    ensures
        groups_match(trailers, groups.push(g), picks.push(idx)),
        forall|k: int| 0 <= k < picks.push(idx).len() ==> #[trigger] picks.push(idx)[k] < idx + 1,
{
    let np = picks.push(idx);
    let ng = groups.push(g);
    assert forall|k: int| 0 <= k < np.len() implies 0 <= #[trigger] np[k] < trailers.len() by {
        if k < picks.len() {
            assert(np[k] == picks[k]);
        }
    }
    assert forall|k1: int, k2: int| 0 <= k1 < k2 < np.len() implies np[k1] < np[k2] by {
        if k2 < picks.len() {
            assert(np[k1] == picks[k1] && np[k2] == picks[k2]);
        } else if k1 < picks.len() {
            assert(np[k1] == picks[k1] && np[k2] == idx);
        }
    }
    assert forall|k: int| 0 <= k < np.len() implies group_for(trailers[np[k]], #[trigger] ng[k]) by {
        if k < picks.len() {
            assert(ng[k] == groups[k] && np[k] == picks[k]);
        } else {
            assert(ng[k] == g && np[k] == idx);
        }
    }
    assert forall|k: int| 0 <= k < np.len() implies #[trigger] np[k] < idx + 1 by {
        if k < picks.len() {
            assert(np[k] == picks[k]);
        }
    }
}

/// Appends one trailer line for the value, unless the value is empty, in
/// which case nothing is added.
pub fn add_trailer(trailers: &mut Vec<String>, key: &str, value: &str)
    ensures
        value@.len() == 0 ==> final(trailers).deep_view() == old(trailers).deep_view(),
        value@.len() != 0 ==> final(trailers).deep_view() == old(trailers).deep_view().push(
            trailer_line(key@, value@),
        ),
        all_groups_nonempty(old(trailers).deep_view()) ==> all_groups_nonempty(
            final(trailers).deep_view(),
        ),
{
    if !value.is_empty() {
        let line = render_line(key, value);
        let ghost pre = *trailers;
        trailers.push(line);
        proof {
            lemma_deep_view_push(pre, *trailers, line);
            reveal_strlit(" ");
            assert(trailer_line(key@, value@).len() > 0);
        }
    }
}

/// Appends one line group for the values — one line per value, sharing the
/// key — unless the value list is empty, in which case nothing is added.
pub fn add_trailers(trailers: &mut Vec<String>, key: &str, values: &[String])
    ensures
        values@.len() == 0 ==> final(trailers).deep_view() == old(trailers).deep_view(),
        values@.len() != 0 ==> final(trailers).deep_view() == old(trailers).deep_view().push(
            joined(trailer_lines(key@, values.deep_view()), "\n"@),
        ),
        all_groups_nonempty(old(trailers).deep_view()) ==> all_groups_nonempty(
            final(trailers).deep_view(),
        ),
{
    if values.len() > 0 {
        let ghost vdv = values.deep_view();
        let ghost lines = trailer_lines(key@, vdv);
        let mut group = render_line(key, &values[0]);
        proof {
            assert(vdv[0] == values@[0]@);
            assert(lines[0] == trailer_line(key@, vdv[0]));
            assert(lines.take(1) =~= seq![lines[0]]);
            assert(joined(lines.take(1), "\n"@) == lines[0]);
        }
        let mut i: usize = 1;
        while i < values.len()
            invariant
                1 <= i as int <= vdv.len(),
                values.deep_view() == vdv,
                values@.len() == vdv.len(),
                lines == trailer_lines(key@, vdv),
                group@ == joined(lines.take(i as int), "\n"@),
            decreases vdv.len() - i,
        {
            group.append("\n");
            let line = render_line(key, &values[i]);
            group.append(line.as_str());
            proof {
                assert(vdv[i as int] == values@[i as int]@);
                assert(lines[i as int] == trailer_line(key@, vdv[i as int]));
                lemma_joined_push(lines.take(i as int), "\n"@, lines[i as int]);
                assert(lines.take(i as int).push(lines[i as int]) =~= lines.take(i as int + 1));
            }
            i = i + 1;
        }
        proof {
            assert(lines.take(vdv.len() as int) =~= lines);
        }
        let ghost pre = *trailers;
        trailers.push(group);
        proof {
            let g = joined(lines, "\n"@);
            lemma_deep_view_push(pre, *trailers, group);
            reveal_strlit(" ");
            assert(lines[0].len() > 0);
            assert(g.len() > 0) by {
                if lines.len() > 1 {
                    assert(g == lines[0] + "\n"@ + joined(lines.drop_first(), "\n"@));
                }
            }
        }
    }
}

/// Clones a list of choice strings.
fn clone_strings(v: &Vec<String>) -> (r: Vec<String>)
    ensures
        r.deep_view() == v.deep_view(),
        r@.len() == v@.len(),
{
    let ghost dv = v.deep_view();
    let mut r: Vec<String> = Vec::new();
    proof {
        assert(r.deep_view() =~= dv.take(0));
    }
    let mut i: usize = 0;
    while i < v.len()
        invariant
            i as int <= dv.len(),
            v.deep_view() == dv,
            v@.len() == dv.len(),
            r.deep_view() == dv.take(i as int),
            r@.len() == i as int,
        decreases dv.len() - i,
    {
        let x = v[i].clone();
        let ghost pre = r;
        r.push(x);
        proof {
            assert(x@ == v@[i as int]@);
            assert(dv[i as int] == v@[i as int]@);
            lemma_deep_view_push(pre, r, x);
            assert(dv.take(i as int).push(dv[i as int]) =~= dv.take(i as int + 1));
        }
        i = i + 1;
    }
    proof {
        assert(dv.take(dv.len() as int) =~= dv);
    }
    r
}

/// The history-query primitive shared by every history-sourced trailer:
/// runs one query per format string, merges all returned lines, then sorts
/// them ascending and removes duplicates. With no format strings there is
/// nothing to query: the candidate set is empty and the call succeeds.
pub fn find_in_git_log<G: Git>(
    git: &G,
    format_strings: &[String],
    max_count: &Option<i32>,
) -> (r: Result<Vec<String>, Error>)
    ensures
        r matches Ok(v) ==> strictly_sorted(v.deep_view()),
        format_strings@.len() == 0 ==> (r matches Ok(v) && v@.len() == 0),
{
    let mut values: Vec<String> = Vec::new();
    let mut i: usize = 0;
    while i < format_strings.len()
        invariant
            i as int <= format_strings@.len(),
            format_strings@.len() == 0 ==> values@.len() == 0,
        decreases format_strings@.len() - i,
    {
        match git.log(format_strings[i].as_str(), max_count) {
            Ok(mut lines) => {
                values.append(&mut lines);
            },
            Err(e) => {
                return Err(e);
            },
        }
        i = i + 1;
    }
    let ghost raw = values.deep_view();
    let r = sort_and_dedup(values);
    proof {
        assert(r.deep_view() == candidates_of(raw));
        if format_strings@.len() == 0 {
            assert(raw =~= Seq::<Seq<char>>::empty());
            assert(candidates_of(raw) == Seq::<Seq<char>>::empty());
        }
    }
    Ok(r)
}

/// Assembles the final commit message: the free-text message, exactly one
/// blank line, then every trailer-line group joined with newlines.
pub fn assemble(message: String, trailers: &Vec<String>) -> (r: String)
    ensures
        r@ == assembled(message@, trailers.deep_view()),
{
    let ghost msg = message@;
    let ghost gs = trailers.deep_view();
    let mut r = message;
    r.append("\n");
    proof {
        let parts = seq![msg, Seq::<char>::empty()];
        assert(parts.drop_first() =~= seq![Seq::<char>::empty()]);
        assert(joined(seq![Seq::<char>::empty()], "\n"@) == Seq::<char>::empty());
        assert(parts.len() == 2 && parts[0] == msg);
        assert(joined(parts, "\n"@) == msg + "\n"@ + Seq::<char>::empty());
        assert(msg + "\n"@ + Seq::<char>::empty() =~= msg + "\n"@);
        assert(gs.take(0) =~= Seq::<Seq<char>>::empty());
        assert(parts + gs.take(0) =~= parts);
        assert(r@ == assembled(msg, gs.take(0)));
    }
    let mut i: usize = 0;
    while i < trailers.len()
        invariant
            i as int <= gs.len(),
            trailers.deep_view() == gs,
            trailers@.len() == gs.len(),
            msg == message@,
            r@ == assembled(msg, gs.take(i as int)),
        decreases gs.len() - i,
    {
        r.append("\n");
        let g: &String = &trailers[i];
        r.append(g.as_str());
        proof {
            assert(g@ == gs[i as int]);
            let parts0 = seq![msg, Seq::<char>::empty()] + gs.take(i as int);
            lemma_joined_push(parts0, "\n"@, gs[i as int]);
            assert(parts0.push(gs[i as int]) =~= seq![msg, Seq::<char>::empty()] + gs.take(
                i as int + 1,
            ));
        }
        i = i + 1;
    }
    proof {
        assert(gs.take(gs.len() as int) =~= gs);
    }
    r
}

/// How a history-sourced trailer is prompted once its candidate set is
/// known.
pub enum CandidatePrompt {
    /// No candidates were found: fall back to free-text input.
    FreeText,
    /// Offer the candidates as choices; the list is never empty.
    Choice(Vec<String>),
}

/// Decides the prompt for a history-sourced trailer from its candidate
/// set: free text when — and only when — the set is empty, otherwise a
/// choice over exactly the candidates, so a choice prompt is never driven
/// with zero options.
pub fn choose_candidate_prompt(candidates: Vec<String>) -> (r: CandidatePrompt)
    ensures
        candidates@.len() == 0 <==> r is FreeText,
        r matches CandidatePrompt::Choice(c) ==> c@ == candidates@ && c@.len() > 0,
{
    if candidates.is_empty() {
        CandidatePrompt::FreeText
    } else {
        CandidatePrompt::Choice(candidates)
    }
}

/// The resolution engine: obtains the free-text message, walks the schema
/// in order driving the appropriate prompt for each trailer, and assembles
/// the result. Any collaborator failure aborts immediately and is returned
/// unchanged. On success the output is a well-formed layout: some message,
/// one blank line, then non-empty trailer-line groups, each the group of a
/// distinct schema trailer, in schema order.
pub fn run<P: Prompt, G: Git>(prompt: &P, git: &G, commit_structure: CommitStructure) -> (r: Result<
    String,
    Error,
>)
    ensures
        r matches Ok(s) ==> (exists|m: Seq<char>, gs: Seq<Seq<char>>, picks: Seq<int>|
            #![trigger assembled(m, gs), groups_match(commit_structure.trailers@, gs, picks)]
            s@ == assembled(m, gs) && all_groups_nonempty(gs) && gs.len()
                <= commit_structure.trailers@.len() && groups_match(
                commit_structure.trailers@,
                gs,
                picks,
            )),
{
    let message = match prompt.text("Message:") {
        Ok(m) => m,
        Err(e) => { return Err(e); },
    };
    let mut all_trailers: Vec<String> = Vec::new();
    let ghost mut picks: Seq<int> = Seq::empty();
    proof {
        assert(all_groups_nonempty(all_trailers.deep_view()));
        assert(groups_match(commit_structure.trailers@, all_trailers.deep_view(), picks));
    }
    let mut idx: usize = 0;
    while idx < commit_structure.trailers.len()
        invariant
            idx as int <= commit_structure.trailers@.len(),
            all_groups_nonempty(all_trailers.deep_view()),
            all_trailers.deep_view().len() <= idx as int,
            groups_match(commit_structure.trailers@, all_trailers.deep_view(), picks),
            forall|k: int| 0 <= k < picks.len() ==> #[trigger] picks[k] < idx as int,
        decreases commit_structure.trailers@.len() - idx,
    {
        let trailer = &commit_structure.trailers[idx];
        match trailer {
            Trailer::Text(m) => {
                let key = render_key(m.name.as_str());
                let value = match prompt.text(key.as_str()) {
                    Ok(v) => v,
                    Err(e) => { return Err(e); },
                };
                let ghost gpre = all_trailers.deep_view();
                add_trailer(&mut all_trailers, key.as_str(), value.as_str());
                proof {
                    if value@.len() != 0 {
                        let t = commit_structure.trailers@[idx as int];
                        lemma_single_group_for(t, key@, value@);
                        lemma_groups_extend(
                            commit_structure.trailers@,
                            gpre,
                            picks,
                            idx as int,
                            trailer_line(key@, value@),
                        );
                        picks = picks.push(idx as int);
                    }
                }
            },
            Trailer::Select(m) => {
                let key = render_key(m.name.as_str());
                match &m.values {
                    Values::FromOptions(v) => {
                        let opts = clone_strings(&v.options);
                        let value = match prompt.select(key.as_str(), opts, false) {
                            Ok(v) => v,
                            Err(e) => { return Err(e); },
                        };
                        let ghost gpre = all_trailers.deep_view();
                        add_trailer(&mut all_trailers, key.as_str(), value.as_str());
                        proof {
                            if value@.len() != 0 {
                                let t = commit_structure.trailers@[idx as int];
                                lemma_single_group_for(t, key@, value@);
                                lemma_groups_extend(
                                    commit_structure.trailers@,
                                    gpre,
                                    picks,
                                    idx as int,
                                    trailer_line(key@, value@),
                                );
                                picks = picks.push(idx as int);
                            }
                        }
                    },
                    Values::FromGitLog(v) => {
                        let options = match find_in_git_log(
                            git,
                            v.format_strings.as_slice(),
                            &v.depth,
                        ) {
                            Ok(o) => o,
                            Err(e) => { return Err(e); },
                        };
                        let value = match choose_candidate_prompt(options) {
                            CandidatePrompt::FreeText => match prompt.text(key.as_str()) {
                                Ok(v) => v,
                                Err(e) => { return Err(e); },
                            },
                            CandidatePrompt::Choice(opts) => match prompt.select(
                                key.as_str(),
                                opts,
                                true,
                            ) {
                                Ok(v) => v,
                                Err(e) => { return Err(e); },
                            },
                        };
                        let ghost gpre = all_trailers.deep_view();
                        add_trailer(&mut all_trailers, key.as_str(), value.as_str());
                        proof {
                            if value@.len() != 0 {
                                let t = commit_structure.trailers@[idx as int];
                                lemma_single_group_for(t, key@, value@);
                                lemma_groups_extend(
                                    commit_structure.trailers@,
                                    gpre,
                                    picks,
                                    idx as int,
                                    trailer_line(key@, value@),
                                );
                                picks = picks.push(idx as int);
                            }
                        }
                    },
                }
            },
            Trailer::MultiSelect(m) => {
                let key = render_key(m.name.as_str());
                match &m.values {
                    Values::FromOptions(v) => {
                        let opts = clone_strings(&v.options);
                        let values = match prompt.multi_select(key.as_str(), opts, false) {
                            Ok(v) => v,
                            Err(e) => { return Err(e); },
                        };
                        let values_slice = values.as_slice();
                        let ghost gpre = all_trailers.deep_view();
                        add_trailers(&mut all_trailers, key.as_str(), values_slice);
                        proof {
                            if values_slice@.len() != 0 {
                                let t = commit_structure.trailers@[idx as int];
                                lemma_multi_group_for(t, key@, values_slice.deep_view());
                                lemma_groups_extend(
                                    commit_structure.trailers@,
                                    gpre,
                                    picks,
                                    idx as int,
                                    joined(trailer_lines(key@, values_slice.deep_view()), "\n"@),
                                );
                                picks = picks.push(idx as int);
                            }
                        }
                    },
                    Values::FromGitLog(v) => {
                        let options = match find_in_git_log(
                            git,
                            v.format_strings.as_slice(),
                            &v.depth,
                        ) {
                            Ok(o) => o,
                            Err(e) => { return Err(e); },
                        };
                        let values = match choose_candidate_prompt(options) {
                            CandidatePrompt::FreeText => match prompt.multi_text(key.as_str()) {
                                Ok(v) => v,
                                Err(e) => { return Err(e); },
                            },
                            CandidatePrompt::Choice(opts) => match prompt.multi_select(
                                key.as_str(),
                                opts,
                                true,
                            ) {
                                Ok(v) => v,
                                Err(e) => { return Err(e); },
                            },
                        };
                        let values_slice = values.as_slice();
                        let ghost gpre = all_trailers.deep_view();
                        add_trailers(&mut all_trailers, key.as_str(), values_slice);
                        proof {
                            if values_slice@.len() != 0 {
                                let t = commit_structure.trailers@[idx as int];
                                lemma_multi_group_for(t, key@, values_slice.deep_view());
                                lemma_groups_extend(
                                    commit_structure.trailers@,
                                    gpre,
                                    picks,
                                    idx as int,
                                    joined(trailer_lines(key@, values_slice.deep_view()), "\n"@),
                                );
                                picks = picks.push(idx as int);
                            }
                        }
                    },
                }
            },
        }
        idx = idx + 1;
    }
    let ghost msg = message@;
    let ghost gs = all_trailers.deep_view();
    let s = assemble(message, &all_trailers);
    proof {
        assert(s@ == assembled(msg, gs));
    }
    Ok(s)
}

} // verus!
