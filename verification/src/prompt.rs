//! Prompt templates: the sections that `### INPUT:` and `### OUTPUT:` markers
//! cut a prompt into.

use vstd::prelude::*;

use crate::text;

verus! {

/// The marker that ends a section: `### INPUT:` ends the system text and every
/// scripted reply, `### OUTPUT:` ends every scripted input.
pub open spec fn marker(input: bool) -> Seq<char> {
    if input {
        "### INPUT:"@
    } else {
        "### OUTPUT:"@
    }
}

/// The sections of a prompt whose next marker is `marker(input)`. The two
/// markers take turns; what follows the last one, even if that is nothing, is a
/// section too.
pub open spec fn sections(prompt: Seq<char>, input: bool) -> Seq<Seq<char>>
    decreases prompt.len(),
{
    match text::find(prompt, marker(input)) {
        Some(i) => {
            proof {
                marker_is_not_empty(input);
                text::find_from_is_first(prompt, marker(input), 0);
            }
            seq![prompt.take(i)] + sections(prompt.skip(i + marker(input).len()), !input)
        },
        None => seq![prompt],
    }
}

/// What a prompt template says.
pub struct StructureModel {
    /// The text for the system message.
    pub system: Seq<char>,
    /// The scripted inputs, each with its scripted reply.
    pub cases: Seq<(Seq<char>, Seq<char>)>,
    /// The last input, when no reply to it is scripted.
    pub dangling: Option<Seq<char>>,
}

/// What a prompt template says. One that no marker cuts is the system text as
/// it stands; else every section counts without the whitespace around it.
pub open spec fn structure(prompt: Seq<char>) -> StructureModel {
    let all = sections(prompt, true);
    if all.len() <= 1 {
        StructureModel { system: prompt, cases: seq![], dangling: None }
    } else {
        let parts = all.skip(1);
        StructureModel {
            system: text::trimmed(all[0]),
            cases: Seq::new(
                (parts.len() / 2) as nat,
                |i: int| (text::trimmed(parts[2 * i]), text::trimmed(parts[2 * i + 1])),
            ),
            dangling: if parts.len() % 2 == 1 {
                Some(text::trimmed(parts.last()))
            } else {
                None
            },
        }
    }
}

/// Neither marker is empty.
pub proof fn marker_is_not_empty(input: bool)
    ensures
        marker(input).len() > 0,
{
    reveal_strlit("### INPUT:");
    reveal_strlit("### OUTPUT:");
}

/// The markers and the sections between them, put together again.
pub open spec fn reassembled(parts: Seq<Seq<char>>, input: bool) -> Seq<char>
    decreases parts.len(),
{
    if parts.len() == 0 {
        seq![]
    } else if parts.len() == 1 {
        parts[0]
    } else {
        parts[0] + marker(input) + reassembled(parts.skip(1), !input)
    }
}

/// Cutting a prompt into sections loses nothing but the markers: with these put
/// back between the sections, they are the prompt again.
pub proof fn sections_reassemble(prompt: Seq<char>, input: bool)
    ensures
        reassembled(sections(prompt, input), input) == prompt,
    decreases prompt.len(),
{
    let m = marker(input);
    if let Some(i) = text::find(prompt, m) {
        marker_is_not_empty(input);
        text::find_from_is_first(prompt, m, 0);
        let rest = prompt.skip(i + m.len());
        let parts = sections(prompt, input);
        let tail = sections(rest, !input);
        sections_reassemble(rest, !input);
        assert(parts =~= seq![prompt.take(i)] + tail);
        assert(parts.skip(1) =~= tail);
        assert(tail.len() > 0);
        assert(prompt =~= prompt.take(i) + m + rest);
    }
}

/// Of a prompt that is cut, the last input dangles exactly where the number of its
/// markers, which is one less than that of its sections, is odd.
pub proof fn dangling_means_an_odd_number_of_markers(prompt: Seq<char>)
    ensures
        sections(prompt, true).len() > 0,
        structure(prompt).dangling is Some <==> (sections(prompt, true).len() - 1) % 2 == 1,
{
}

/// A prompt without an `### INPUT:` marker is the system text as it stands.
pub proof fn plain_prompt_is_the_system_text(prompt: Seq<char>)
    requires
        !text::occurs(prompt, marker(true)),
    ensures
        structure(prompt) == (StructureModel { system: prompt, cases: seq![], dangling: None }),
{
    text::find_from_is_first(prompt, marker(true), 0);
    if text::find(prompt, marker(true)) is Some {
        assert(text::occurs_at(prompt, marker(true), text::find(prompt, marker(true))->0));
    }
}

/// The prompt is the parts with two marks between them, which take turns: each
/// stands where it occurs first, and the next one occurs nowhere in the last part.
pub open spec fn is_cut_into(
    prompt: Seq<char>,
    parts: Seq<Seq<char>>,
    mark: Seq<char>,
    other: Seq<char>,
) -> bool
    decreases parts.len(),
{
    if parts.len() == 0 {
        false
    } else if parts.len() == 1 {
        prompt == parts[0] && !text::occurs(prompt, mark)
    } else {
        &&& (parts[0] + mark).is_prefix_of(prompt)
        &&& forall|i: int| 0 <= i < parts[0].len() ==> !text::occurs_at(prompt, mark, i)
        &&& is_cut_into(
            prompt.skip((parts[0] + mark).len() as int),
            parts.skip(1),
            other,
            mark,
        )
    }
}

/// The sections are the parts that the markers cut a prompt into.
pub proof fn sections_are_cut_at_the_markers(prompt: Seq<char>, input: bool)
    ensures
        is_cut_into(prompt, sections(prompt, input), marker(input), marker(!input)),
    decreases prompt.len(),
{
    let m = marker(input);
    let parts = sections(prompt, input);
    marker_is_not_empty(input);
    text::find_from_is_first(prompt, m, 0);
    match text::find(prompt, m) {
        Some(i) => {
            let rest = prompt.skip(i + m.len());
            sections_are_cut_at_the_markers(rest, !input);
            assert(parts.skip(1) =~= sections(rest, !input));
            assert(sections(rest, !input).len() > 0);
            assert(parts[0] == prompt.take(i));
            assert(prompt.subrange(i, i + m.len()) == m);
            assert((parts[0] + m) =~= prompt.take(i + m.len()));
        },
        None => {
            assert(!text::occurs(prompt, m)) by {
                assert forall|j: int| !text::occurs_at(prompt, m, j) by {}
            }
        },
    }
}

/// Of a prompt that a marker cuts, every part counts, in its place, without the
/// whitespace at its two ends and with everything else: the first is the system
/// text, the others are inputs and replies in turn, and an input without a reply
/// dangles.
pub proof fn cut_prompts_keep_all_but_whitespace(prompt: Seq<char>) -> (parts: Seq<Seq<char>>)
    requires
        text::occurs(prompt, "### INPUT:"@),
    ensures
        parts.len() >= 2,
        is_cut_into(prompt, parts, "### INPUT:"@, "### OUTPUT:"@),
        text::is_trim_of(parts[0], structure(prompt).system),
        structure(prompt).cases.len() == (parts.len() - 1) / 2,
        forall|i: int|
            0 <= i < structure(prompt).cases.len() ==> text::is_trim_of(
                parts[2 * i + 1],
                (#[trigger] structure(prompt).cases[i]).0,
            ) && text::is_trim_of(parts[2 * i + 2], structure(prompt).cases[i].1),
        structure(prompt).dangling is Some <==> parts.len() % 2 == 0,
        structure(prompt).dangling matches Some(t) ==> text::is_trim_of(parts.last(), t),
{
    let parts = sections(prompt, true);
    sections_are_cut_at_the_markers(prompt, true);
    text::find_from_is_first(prompt, "### INPUT:"@, 0);
    assert(parts.len() >= 2) by {
        let rest = prompt.skip(text::find(prompt, marker(true))->0 + marker(true).len());
        assert(sections(rest, false).len() > 0);
    }
    let others = parts.skip(1);
    assert forall|i: int| 0 <= i < parts.len() implies text::is_trim_of(
        #[trigger] parts[i],
        text::trimmed(parts[i]),
    ) by {
        text::trimming_keeps_all_but_whitespace(parts[i]);
    }
    assert forall|i: int| 0 <= i < structure(prompt).cases.len() implies text::is_trim_of(
        parts[2 * i + 1],
        (#[trigger] structure(prompt).cases[i]).0,
    ) && text::is_trim_of(parts[2 * i + 2], structure(prompt).cases[i].1) by {
        assert(others[2 * i] == parts[2 * i + 1]);
        assert(others[2 * i + 1] == parts[2 * i + 2]);
    }
    assert(others.last() == parts.last());
    parts
}

/// The system text is all of what stands before the first `### INPUT:`, but for
/// the whitespace at its two ends.
pub proof fn system_text_is_all_before_the_first_input(before: Seq<char>, rest: Seq<char>)
    requires
        forall|i: int|
            0 <= i < before.len() ==> !text::occurs_at(
                before + "### INPUT:"@ + rest,
                "### INPUT:"@,
                i,
            ),
    ensures
        text::is_trim_of(before, structure(before + "### INPUT:"@ + rest).system),
{
    let m = "### INPUT:"@;
    let prompt = before + m + rest;
    assert(prompt.subrange(before.len() as int, before.len() as int + m.len()) =~= m);
    assert(text::occurs_at(prompt, m, before.len() as int));
    let parts = cut_prompts_keep_all_but_whitespace(prompt);
    let n = parts[0].len() as int;
    assert(prompt.take((parts[0] + m).len() as int) =~= parts[0] + m);
    assert(prompt.subrange(n, n + m.len()) =~= m) by {
        assert forall|j: int| 0 <= j < m.len() implies prompt[n + j] == m[j] by {
            assert((parts[0] + m)[n + j] == m[j]);
            assert(prompt.take((parts[0] + m).len() as int)[n + j] == prompt[n + j]);
        }
    }
    assert(text::occurs_at(prompt, m, n));
    assert(n == before.len());
    assert(parts[0] =~= before) by {
        assert forall|j: int| 0 <= j < n implies parts[0][j] == before[j] by {
            assert((parts[0] + m)[j] == parts[0][j]);
            assert(prompt.take((parts[0] + m).len() as int)[j] == prompt[j]);
        }
    }
}

/// The text of a case that was read from a prompt.
pub open spec fn cases_of(cases: Seq<(&str, &str)>) -> Seq<(Seq<char>, Seq<char>)> {
    Seq::new(cases.len(), |i: int| (cases[i].0@, cases[i].1@))
}

/// The text that may be there.
pub open spec fn optional_text(t: Option<&str>) -> Option<Seq<char>> {
    match t {
        Some(t) => Some(t@),
        None => None,
    }
}

/// The characters of the pieces of a text.
pub open spec fn pieces(v: Seq<&str>) -> Seq<Seq<char>> {
    Seq::new(v.len(), |i: int| v[i]@)
}

/// Cuts a prompt into its sections.
fn cut(prompt: &str) -> (r: Vec<&str>)
    ensures
        pieces(r@) == sections(prompt@, true),
{
    let chars = text::to_chars(prompt);
    let input_marker = text::to_chars("### INPUT:");
    let output_marker = text::to_chars("### OUTPUT:");
    let mut parts: Vec<&str> = Vec::new();
    let mut search_input = true;
    let mut from: usize = 0;
    proof {
        assert(prompt@.skip(0) =~= prompt@);
        assert(pieces(parts@) + sections(prompt@, true) =~= sections(prompt@, true));
    }
    loop
        invariant
            from <= chars@.len(),
            chars@ == prompt@,
            input_marker@ == marker(true),
            output_marker@ == marker(false),
            pieces(parts@) + sections(prompt@.skip(from as int), search_input) == sections(
                prompt@,
                true,
            ),
        decreases chars@.len() - from,
    {
        let ghost rest = prompt@.skip(from as int);
        let ghost m = marker(search_input);
        let search = if search_input {
            &input_marker
        } else {
            &output_marker
        };
        proof {
            marker_is_not_empty(search_input);
            find_in_rest(prompt@, m, from as int);
            text::find_from_is_first(rest, m, 0);
        }
        let ghost before = pieces(parts@);
        match text::find_in(&chars, search, from) {
            Some(idx) => {
                let piece = prompt.substring_char(from, idx);
                assert(idx + search@.len() <= chars.len());
                parts.push(piece);
                proof {
                    let i = idx - from;
                    assert(piece@ =~= rest.take(i));
                    assert(pieces(parts@) =~= before.push(piece@));
                    assert(rest.skip(i + m.len()) =~= prompt@.skip(idx + m.len()));
                    let tail = sections(prompt@.skip(idx + m.len()), !search_input);
                    assert(sections(rest, search_input) == seq![piece@] + tail);
                    assert(before + (seq![piece@] + tail) =~= before.push(piece@) + tail);
                }
                from = idx + search.len();
                search_input = !search_input;
            },
            None => {
                let piece = prompt.substring_char(from, chars.len());
                parts.push(piece);
                proof {
                    assert(piece@ =~= rest);
                    assert(pieces(parts@) =~= before.push(rest));
                    assert(before.push(rest) =~= before + seq![rest]);
                }
                return parts;
            },
        }
    }
}

/// Searching a text from a position on is searching the rest of it.
proof fn find_in_rest(s: Seq<char>, pat: Seq<char>, from: int)
    requires
        0 <= from <= s.len(),
    ensures
        match text::find_from(s, pat, from) {
            Some(i) => text::find(s.skip(from), pat) == Some(i - from),
            None => text::find(s.skip(from), pat) is None,
        },
{
    let rest = s.skip(from);
    text::find_from_is_first(s, pat, from);
    text::find_from_is_first(rest, pat, 0);
    assert forall|j: int| 0 <= j implies text::occurs_at(rest, pat, j) == text::occurs_at(
        s,
        pat,
        from + j,
    ) by {
        if j + pat.len() <= rest.len() {
            assert(rest.subrange(j, j + pat.len()) =~= s.subrange(from + j, from + j + pat.len()));
        }
    }
    match (text::find_from(s, pat, from), text::find(rest, pat)) {
        (Some(i), Some(j)) => {
            assert(text::occurs_at(rest, pat, i - from));
            assert(text::occurs_at(s, pat, from + j));
        },
        (Some(i), None) => {
            assert(text::occurs_at(rest, pat, i - from));
        },
        (None, Some(j)) => {
            assert(text::occurs_at(s, pat, from + j));
        },
        (None, None) => {},
    }
}

/// Reads a prompt template: its system text, the scripted inputs with their
/// replies, and the last input when no reply to it is scripted.
pub fn parse_structure_prompt(prompt: &str) -> (r: (&str, Vec<(&str, &str)>, Option<&str>))
    ensures
        r.0@ == structure(prompt@).system,
        cases_of(r.1@) == structure(prompt@).cases,
        optional_text(r.2) == structure(prompt@).dangling,
{
    let all = cut(prompt);
    let ghost secs = sections(prompt@, true);
    if all.len() <= 1 {
        let cases: Vec<(&str, &str)> = Vec::new();
        proof {
            assert(cases_of(cases@) =~= seq![]);
        }
        return (prompt, cases, None);
    }
    let ghost parts = secs.skip(1);
    let ghost wanted = structure(prompt@).cases;
    let n = (all.len() - 1) / 2;
    let mut cases: Vec<(&str, &str)> = Vec::new();
    let mut i: usize = 0;
    while i < n
        invariant
            i <= n,
            n == (all.len() - 1) / 2,
            all@.len() >= 2,
            pieces(all@) == secs,
            parts == secs.skip(1),
            wanted.len() == n,
            forall|k: int|
                0 <= k < n ==> #[trigger] wanted[k] == (
                    text::trimmed(parts[2 * k]),
                    text::trimmed(parts[2 * k + 1]),
                ),
            cases_of(cases@) == wanted.take(i as int),
        decreases n - i,
    {
        let a = all[2 * i + 1];
        let b = all[2 * i + 2];
        let case = (text::trim(a), text::trim(b));
        proof {
            assert(pieces(all@)[2 * i + 1] == a@);
            assert(pieces(all@)[2 * i + 2] == b@);
            assert(parts[2 * i] == a@);
            assert(parts[2 * i + 1] == b@);
            assert(cases_of(cases@.push(case)) =~= cases_of(cases@).push((case.0@, case.1@)));
            assert(wanted.take(i + 1) =~= wanted.take(i as int).push(wanted[i as int]));
        }
        cases.push(case);
        i += 1;
    }
    proof {
        assert(wanted.take(n as int) =~= wanted);
        assert(pieces(all@)[0] == all@[0]@);
        assert(pieces(all@).last() == all@[all@.len() - 1]@);
        assert(parts.last() == secs.last());
    }
    let dangling = if all.len() % 2 == 0 {
        Some(text::trim(all[all.len() - 1]))
    } else {
        None
    };
    (text::trim(all[0]), cases, dangling)
}

} // verus!
