//! The comments that document functions in Lua source.

use vstd::prelude::*;

use crate::table;
use crate::table::Table;
use crate::text;

verus! {

/// What a comment says of the function behind it.
#[derive(Debug)]
pub struct ParsedDocComment {
    pub description: Option<String>,
    /// The parameters with their descriptions, in order.
    pub params: Vec<(String, String)>,
}

/// What a comment says of the function behind it.
pub struct DocModel {
    pub description: Option<Seq<char>>,
    pub params: Seq<(Seq<char>, Seq<char>)>,
}

/// Parameters with their descriptions.
pub open spec fn doc_params(v: Seq<(String, String)>) -> Seq<(Seq<char>, Seq<char>)> {
    Seq::new(v.len(), |i: int| (v[i].0@, v[i].1@))
}

impl View for ParsedDocComment {
    type V = DocModel;

    open spec fn view(&self) -> DocModel {
        DocModel { description: text::optional(self.description), params: doc_params(self.params@) }
    }
}

/// The comments under the names of their functions.
pub open spec fn docs_under(entries: Seq<(Seq<char>, ParsedDocComment)>) -> Seq<
    (Seq<char>, DocModel),
> {
    table::mapped(entries, |d: ParsedDocComment| d@)
}

/// A character that a name may hold.
pub open spec fn is_name_char(c: char) -> bool {
    text::is_alphanumeric(c) || c == '_'
}

/// How many characters at the start of a text make up a name.
pub open spec fn name_len(s: Seq<char>) -> int
    decreases s.len(),
{
    if s.len() == 0 || !is_name_char(s[0]) {
        0
    } else {
        1 + name_len(s.skip(1))
    }
}

/// A name goes on behind its first part: a `.` or a `:` follows that.
pub open spec fn goes_on(behind: Seq<char>) -> bool {
    let t = text::trim_start_of(behind);
    text::without_prefix(t, "."@) is Some || text::without_prefix(t, ":"@) is Some
}

/// The name that a line declares a function under, where that is a plain one and not
/// that of a function in a table; something must follow the name.
pub open spec fn declared_name(line: Seq<char>) -> Option<Seq<char>> {
    match text::without_prefix(line, "function"@) {
        Some(rest) => if rest.len() == 0 || !text::is_white_space(rest[0]) {
            None
        } else {
            let t = text::trim_start_of(rest.skip(1));
            let n = name_len(t);
            if 0 < n < t.len() && !goes_on(t.skip(n)) {
                Some(t.take(n))
            } else {
                None
            }
        },
        None => None,
    }
}

/// The name that a line declares a function under.
pub fn parse_function_decl(line: &str) -> (r: Option<String>)
    ensures
        text::optional(r) == declared_name(line@),
{
    let rest = match text::strip_prefix(line, "function") {
        Some(rest) => rest,
        None => {
            return None;
        },
    };
    let chars = text::to_chars(rest);
    if chars.len() == 0 || !text::char_is_whitespace(chars[0]) {
        return None;
    }
    let behind = text::from_chars(&chars, 1, chars.len());
    proof {
        assert(behind@ =~= rest@.skip(1));
    }
    let name = text::trim_start(behind.as_str());
    let chars = text::to_chars(name);
    let mut n: usize = 0;
    let ghost t = name@;
    proof {
        assert(t.skip(0) =~= t);
    }
    while n < chars.len() && (text::char_is_alphanumeric(chars[n]) || chars[n] == '_')
        invariant
            n <= chars@.len(),
            chars@ == t,
            name_len(t) == n + name_len(t.skip(n as int)),
        decreases chars@.len() - n,
    {
        proof {
            assert(t.skip(n as int).skip(1) =~= t.skip(n + 1));
            assert(t.skip(n as int)[0] == t[n as int]);
        }
        n += 1;
    }
    if n == 0 || n == chars.len() {
        return None;
    }
    let behind = text::from_chars(&chars, n, chars.len());
    proof {
        assert(behind@ =~= t.skip(n as int));
    }
    let rest = text::trim_start(behind.as_str());
    if text::strip_prefix(rest, ".").is_some() || text::strip_prefix(rest, ":").is_some() {
        return None;
    }
    let found = text::from_chars(&chars, 0, n);
    proof {
        assert(found@ =~= t.take(n as int));
    }
    Some(found)
}

/// How many characters stand before the first whitespace, or in all of `s` when it
/// holds none.
pub open spec fn word_len(s: Seq<char>) -> int
    decreases s.len(),
{
    if s.len() == 0 || text::is_white_space(s[0]) {
        0
    } else {
        1 + word_len(s.skip(1))
    }
}

/// The parameter that a comment names, with its description.
pub open spec fn named_param(t: Seq<char>) -> Option<(Seq<char>, Seq<char>)> {
    let n = word_len(t);
    if 0 <= n < t.len() {
        Some((text::trimmed(t.take(n)), text::trimmed(t.skip(n + 1))))
    } else if t.len() > 0 {
        Some((t, seq![]))
    } else {
        None
    }
}

/// Where the search for comments is: what was found, and what stands directly
/// before the next line.
pub struct DocState {
    pub found: Seq<(Seq<char>, DocModel)>,
    pub description: Seq<Seq<char>>,
    pub params: Seq<(Seq<char>, Seq<char>)>,
    pub pending: bool,
}

/// The search for comments without anything directly before the next line.
pub open spec fn cut_off(s: DocState) -> DocState {
    DocState { found: s.found, description: seq![], params: seq![], pending: false }
}

/// The comment that stands directly before the next line.
pub open spec fn pending_doc(s: DocState) -> DocModel {
    DocModel {
        description: if s.description.len() == 0 {
            None
        } else {
            Some(text::joined(s.description, " "@))
        },
        params: s.params,
    }
}

/// The search for comments one line further. Lines with `---` make up the
/// description, lines with `-- @param` name the parameters, other comments and
/// empty lines count for nothing, and every other line ends the comment; where it
/// declares a function, the comment is that function's.
pub open spec fn doc_step(s: DocState, raw: Seq<char>) -> DocState {
    let line = text::trimmed(raw);
    match text::without_prefix(line, "---"@) {
        Some(rest) => DocState {
            description: s.description.push(text::trimmed(rest)),
            pending: true,
            ..s
        },
        None => match text::without_prefix(line, "--"@) {
            Some(rest) => match text::without_prefix(text::trimmed(rest), "@param"@) {
                Some(p) => DocState {
                    params: match named_param(text::trimmed(p)) {
                        Some(param) => s.params.push(param),
                        None => s.params,
                    },
                    pending: true,
                    ..s
                },
                None => s,
            },
            None => match declared_name(line) {
                Some(name) => if s.pending {
                    cut_off(
                        DocState { found: table::put(s.found, name, pending_doc(s)), ..s },
                    )
                } else {
                    cut_off(s)
                },
                None => if line.len() == 0 {
                    s
                } else {
                    cut_off(s)
                },
            },
        },
    }
}

/// The search for comments after some lines.
pub open spec fn doc_search(lines: Seq<Seq<char>>) -> DocState
    decreases lines.len(),
{
    if lines.len() == 0 {
        DocState { found: seq![], description: seq![], params: seq![], pending: false }
    } else {
        doc_step(doc_search(lines.drop_last()), lines.last())
    }
}

/// The comments in Lua source, under the names of their functions; of two under one
/// name, the later counts.
pub open spec fn doc_comments(source: Seq<char>) -> Seq<(Seq<char>, DocModel)> {
    doc_search(text::lines_of(source)).found
}

/// A function with no comment directly before it is not documented.
pub proof fn undocumented_function_is_not_found(s: DocState, line: Seq<char>)
    requires
        !s.pending,
        text::without_prefix(text::trimmed(line), "---"@) is None,
        text::without_prefix(text::trimmed(line), "--"@) is None,
    ensures
        doc_step(s, line).found == s.found,
{
}

/// An empty line between a comment and its function does not part them.
pub proof fn empty_line_does_not_end_a_comment(s: DocState)
    ensures
        doc_step(s, seq![]) == s,
{
    assert(text::trimmed(seq![]) =~= seq![]);
    reveal_strlit("---");
    reveal_strlit("--");
    reveal_strlit("function");
}

/// The parameter that a comment names, with its description.
fn parse_param(t: &str) -> (r: Option<(String, String)>)
    ensures
        match r {
            Some(p) => named_param(t@) == Some((p.0@, p.1@)),
            None => named_param(t@) is None,
        },
{
    let chars = text::to_chars(t);
    let mut n: usize = 0;
    proof {
        assert(t@.skip(0) =~= t@);
    }
    while n < chars.len() && !text::char_is_whitespace(chars[n])
        invariant
            n <= chars@.len(),
            chars@ == t@,
            word_len(t@) == n + word_len(t@.skip(n as int)),
        decreases chars@.len() - n,
    {
        proof {
            assert(t@.skip(n as int).skip(1) =~= t@.skip(n + 1));
            assert(t@.skip(n as int)[0] == t@[n as int]);
        }
        n += 1;
    }
    if n < chars.len() {
        let name = text::from_chars(&chars, 0, n);
        let rest = text::from_chars(&chars, n + 1, chars.len());
        proof {
            assert(name@ =~= t@.take(n as int));
            assert(rest@ =~= t@.skip(n + 1));
        }
        return Some((text::trim(name.as_str()).to_owned(), text::trim(rest.as_str()).to_owned()));
    }
    if chars.len() > 0 {
        let empty = String::new();
        proof {
            assert(empty@ =~= seq![]);
        }
        return Some((t.to_owned(), empty));
    }
    None
}

/// The search for comments.
struct DocSearch {
    found: Table<ParsedDocComment>,
    description: Vec<String>,
    params: Vec<(String, String)>,
    pending: bool,
}

impl View for DocSearch {
    type V = DocState;

    closed spec fn view(&self) -> DocState {
        DocState {
            found: docs_under(self.found@),
            description: text::texts(self.description@),
            params: doc_params(self.params@),
            pending: self.pending,
        }
    }
}

impl DocSearch {
    /// Forgets what stands directly before the next line.
    fn cut(&mut self)
        ensures
            final(self)@ == cut_off(old(self)@),
    {
        self.description = Vec::new();
        self.params = Vec::new();
        self.pending = false;
        proof {
            assert(self@.description =~= seq![]);
            assert(self@.params =~= seq![]);
        }
    }

    /// Takes the comment directly before the next line for a function's.
    fn assign(&mut self, name: String)
        ensures
            final(self)@ == cut_off(
                DocState {
                    found: table::put(old(self)@.found, name@, pending_doc(old(self)@)),
                    ..old(self)@
                },
            ),
    {
        let ghost before = self@;
        let description = if self.description.is_empty() {
            None
        } else {
            Some(text::join(&self.description, " "))
        };
        let mut params: Vec<(String, String)> = Vec::new();
        std::mem::swap(&mut params, &mut self.params);
        let doc = ParsedDocComment { description, params };
        let ghost held = self.found@;
        proof {
            assert(doc@ == pending_doc(before));
            table::mapped_put(held, name@, doc, |d: ParsedDocComment| d@);
        }
        self.found.insert(name, doc);
        self.cut();
    }

    /// Goes on by one line.
    fn step(&mut self, raw: &str)
        ensures
            final(self)@ == doc_step(old(self)@, raw@),
    {
        let line = text::trim(raw);
        if let Some(rest) = text::strip_prefix(line, "---") {
            let t = text::trim(rest).to_owned();
            proof {
                text::texts_push(self.description@, t);
            }
            self.description.push(t);
            self.pending = true;
            return ;
        }
        if let Some(rest) = text::strip_prefix(line, "--") {
            let rest = text::trim(rest);
            if let Some(p) = text::strip_prefix(rest, "@param") {
                if let Some(param) = parse_param(text::trim(p)) {
                    let ghost before = self.params@;
                    self.params.push(param);
                    proof {
                        assert(doc_params(self.params@) =~= doc_params(before).push(
                            (param.0@, param.1@),
                        ));
                    }
                }
                self.pending = true;
            }
            return ;
        }
        if let Some(name) = parse_function_decl(line) {
            if self.pending {
                self.assign(name);
            } else {
                self.cut();
            }
            return ;
        }
        if line.is_empty() {
            return ;
        }
        self.cut();
    }
}

/// The comments in Lua source, under the names of their functions.
pub fn parse_doc_comments(source: &str) -> (r: Table<ParsedDocComment>)
    ensures
        docs_under(r@) == doc_comments(source@),
{
    let lines = text::lines(source);
    let ghost all = text::texts(lines@);
    let mut search = DocSearch {
        found: Table::new(),
        description: Vec::new(),
        params: Vec::new(),
        pending: false,
    };
    let mut i: usize = 0;
    proof {
        assert(all.take(0) =~= seq![]);
        assert(search@.found =~= seq![]);
        assert(search@.description =~= seq![]);
        assert(search@.params =~= seq![]);
    }
    while i < lines.len()
        invariant
            i <= lines@.len(),
            all == text::texts(lines@),
            search@ == doc_search(all.take(i as int)),
        decreases lines@.len() - i,
    {
        proof {
            assert(all.take(i + 1).drop_last() =~= all.take(i as int));
            assert(all.take(i + 1).last() == lines@[i as int]@);
        }
        search.step(lines[i].as_str());
        i += 1;
    }
    proof {
        assert(all.take(i as int) =~= all);
    }
    search.found
}

/// The comments in several files of Lua source, in order; of two under one name,
/// the later counts.
pub open spec fn all_doc_comments(sources: Seq<Seq<char>>) -> Seq<(Seq<char>, DocModel)>
    decreases sources.len(),
{
    if sources.len() == 0 {
        seq![]
    } else {
        table::put_all(all_doc_comments(sources.drop_last()), doc_comments(sources.last()))
    }
}

/// A copy of parameters with their descriptions.
fn clone_params(v: &Vec<(String, String)>) -> (r: Vec<(String, String)>)
    ensures
        doc_params(r@) == doc_params(v@),
{
    let mut out: Vec<(String, String)> = Vec::new();
    let mut i: usize = 0;
    while i < v.len()
        invariant
            i <= v@.len(),
            out@.len() == i,
            forall|k: int| 0 <= k < i ==> #[trigger] out@[k] == v@[k],
        decreases v@.len() - i,
    {
        out.push((v[i].0.clone(), v[i].1.clone()));
        i += 1;
    }
    proof {
        assert(doc_params(out@) =~= doc_params(v@));
    }
    out
}

/// The comments in several files of Lua source.
pub fn collect_doc_comments(sources: &Vec<String>) -> (r: Table<ParsedDocComment>)
    ensures
        docs_under(r@) == all_doc_comments(text::texts(sources@)),
{
    let ghost all = text::texts(sources@);
    let mut out: Table<ParsedDocComment> = Table::new();
    let mut i: usize = 0;
    proof {
        assert(all.take(0) =~= seq![]);
        assert(docs_under(out@) =~= seq![]);
    }
    while i < sources.len()
        invariant
            i <= sources@.len(),
            all == text::texts(sources@),
            docs_under(out@) == all_doc_comments(all.take(i as int)),
        decreases sources@.len() - i,
    {
        let found = parse_doc_comments(sources[i].as_str());
        let ghost start = docs_under(out@);
        let ghost more = docs_under(found@);
        let mut k: usize = 0;
        proof {
            assert(more.take(0) =~= seq![]);
        }
        while k < found.len()
            invariant
                k <= found@.len(),
                more == docs_under(found@),
                docs_under(out@) == table::put_all(start, more.take(k as int)),
            decreases found@.len() - k,
        {
            let (name, doc) = found.entry(k);
            let copy = ParsedDocComment {
                description: doc.description.clone(),
                params: clone_params(&doc.params),
            };
            let ghost held = out@;
            proof {
                assert(copy@ == doc@);
                table::mapped_put(held, name@, copy, |d: ParsedDocComment| d@);
                assert(more.take(k + 1).drop_last() =~= more.take(k as int));
                assert(more.take(k + 1).last() == (name@, doc@));
            }
            out.insert(name.clone(), copy);
            k += 1;
        }
        proof {
            assert(more.take(k as int) =~= more);
            assert(all.take(i + 1).drop_last() =~= all.take(i as int));
            assert(all.take(i + 1).last() == sources@[i as int]@);
        }
        i += 1;
    }
    proof {
        assert(all.take(i as int) =~= all);
    }
    out
}

// ---- What documents a function ----

/// A text without whitespace, which is not empty.
pub open spec fn is_word(t: Seq<char>) -> bool {
    t.len() > 0 && forall|i: int| 0 <= i < t.len() ==> !text::is_white_space(#[trigger] t[i])
}

/// A text that neither begins nor ends with whitespace and is not empty.
pub open spec fn is_phrase(t: Seq<char>) -> bool {
    t.len() > 0 && !text::is_white_space(t[0]) && !text::is_white_space(t.last())
}

/// A word of which every character may stand in a name.
pub open spec fn is_name(t: Seq<char>) -> bool {
    is_word(t) && forall|i: int| 0 <= i < t.len() ==> is_name_char(#[trigger] t[i])
}

/// The name at the front of a text ends where another character follows.
proof fn names_end_at_other_characters(name: Seq<char>, behind: Seq<char>)
    requires
        forall|i: int| 0 <= i < name.len() ==> is_name_char(#[trigger] name[i]),
        behind.len() > 0 ==> !is_name_char(behind[0]),
    ensures
        name_len(name + behind) == name.len(),
    decreases name.len(),
{
    if name.len() > 0 {
        assert(is_name_char(name[0]));
        assert((name + behind).skip(1) =~= name.skip(1) + behind);
        assert forall|i: int| 0 <= i < name.skip(1).len() implies is_name_char(
            #[trigger] name.skip(1)[i],
        ) by {
            assert(name.skip(1)[i] == name[i + 1]);
        }
        names_end_at_other_characters(name.skip(1), behind);
    } else {
        assert(name + behind =~= behind);
    }
}

/// A line declares a function under a name exactly where that name, behind
/// `function` and whitespace, is all of the name: what follows it, which is not
/// nothing, goes on neither with `.` nor with `:`, be there whitespace before or not.
pub proof fn functions_are_declared_under_plain_names(
    gap: Seq<char>,
    name: Seq<char>,
    space: Seq<char>,
    rest: Seq<char>,
)
    requires
        gap.len() > 0,
        text::is_blank(gap),
        is_name(name),
        text::is_blank(space),
        rest.len() > 0 ==> !text::is_white_space(rest[0]),
        (space + rest).len() > 0 ==> !is_name_char((space + rest)[0]),
    ensures
        (space + rest).len() > 0 && !(rest.len() > 0 && (rest[0] == '.' || rest[0] == ':'))
            ==> declared_name("function"@ + gap + name + space + rest) == Some(name),
        (space + rest).len() == 0 || rest.len() > 0 && (rest[0] == '.' || rest[0] == ':')
            ==> declared_name("function"@ + gap + name + space + rest) is None,
{
    let word = "function"@;
    let line = word + gap + name + space + rest;
    let behind = space + rest;
    let after = gap + name + space + rest;
    assert(line =~= word + after);
    text::prefixes_and_suffixes_come_off(word, after);
    assert(text::is_white_space(gap[0]));
    assert(after[0] == gap[0]);
    let gap_left = gap.skip(1);
    assert(text::is_blank(gap_left)) by {
        assert forall|i: int| 0 <= i < gap_left.len() implies text::is_white_space(
            #[trigger] gap_left[i],
        ) by {
            assert(gap_left[i] == gap[i + 1]);
        }
    }
    assert(after.skip(1) =~= gap_left + (name + behind));
    assert(!text::is_white_space(name[0]));
    assert((name + behind)[0] == name[0]);
    trimming_stops_at(gap_left, name + behind);
    names_end_at_other_characters(name, behind);
    assert((name + behind).take(name.len() as int) =~= name);
    assert((name + behind).skip(name.len() as int) =~= behind);
    trimming_stops_at(space, rest);
    reveal_strlit(".");
    reveal_strlit(":");
    if rest.len() > 0 {
        assert(rest.take(1) =~= seq![rest[0]]);
        assert("."@ =~= seq!['.']);
        assert(":"@ =~= seq![':']);
    }
    if "."@.is_prefix_of(rest) {
        assert(rest.take(1)[0] == "."@[0]);
    }
    if ":"@.is_prefix_of(rest) {
        assert(rest.take(1)[0] == ":"@[0]);
    }
    assert(goes_on(behind) == (rest.len() > 0 && (rest[0] == '.' || rest[0] == ':')));
}

/// Trimming the front stops at what is not whitespace.
proof fn trimming_stops_at(a: Seq<char>, t: Seq<char>)
    requires
        text::is_blank(a),
        t.len() > 0 ==> !text::is_white_space(t[0]),
    ensures
        text::trim_start_of(a + t) == t,
    decreases a.len(),
{
    if a.len() == 0 {
        assert(a + t =~= t);
    } else {
        assert(text::is_white_space(a[0]));
        assert((a + t).skip(1) =~= a.skip(1) + t);
        assert forall|i: int| 0 <= i < a.skip(1).len() implies text::is_white_space(
            #[trigger] a.skip(1)[i],
        ) by {
            assert(a.skip(1)[i] == a[i + 1]);
        }
        trimming_stops_at(a.skip(1), t);
    }
}

/// A line that does not begin with `function` and whitespace declares no function.
pub proof fn other_lines_declare_no_function(line: Seq<char>)
    requires
        !("function"@.is_prefix_of(line)) || line.len() == "function"@.len()
            || !text::is_white_space(line["function"@.len() as int]),
    ensures
        declared_name(line) is None,
{
    if "function"@.is_prefix_of(line) && line.len() > "function"@.len() {
        assert(line.skip("function"@.len() as int)[0] == line["function"@.len() as int]);
    }
}

/// A parameter is named by the first word, and what follows it, but for the
/// whitespace at its two ends, describes it. A word alone has no description.
pub proof fn parameters_are_a_name_and_a_description(
    name: Seq<char>,
    c: char,
    rest: Seq<char>,
)
    requires
        is_word(name),
        text::is_white_space(c),
    ensures
        named_param(name + seq![c] + rest) matches Some(p) && p.0 == name && text::is_trim_of(
            rest,
            p.1,
        ),
        named_param(name) == Some((name, Seq::<char>::empty())),
{
    let t = name + seq![c] + rest;
    words_end_at_whitespace(name, seq![c] + rest);
    words_end_at_whitespace(name, seq![]);
    assert(t =~= name + (seq![c] + rest));
    assert(name + Seq::<char>::empty() =~= name);
    assert(t.take(name.len() as int) =~= name);
    assert(t.skip(name.len() as int + 1) =~= rest);
    assert(!text::is_white_space(name[0]));
    assert(!text::is_white_space(name[name.len() - 1]));
    text::trimming_finds_the_text_between(seq![], name, seq![]);
    assert(seq![] + name + seq![] =~= name);
    text::trimming_keeps_all_but_whitespace(rest);
}

/// A word ends where whitespace follows.
proof fn words_end_at_whitespace(word: Seq<char>, rest: Seq<char>)
    requires
        forall|i: int| 0 <= i < word.len() ==> !text::is_white_space(#[trigger] word[i]),
        rest.len() > 0 ==> text::is_white_space(rest[0]),
    ensures
        word_len(word + rest) == word.len(),
    decreases word.len(),
{
    if word.len() > 0 {
        assert(!text::is_white_space(word[0]));
        assert((word + rest).skip(1) =~= word.skip(1) + rest);
        assert forall|i: int| 0 <= i < word.skip(1).len() implies !text::is_white_space(
            #[trigger] word.skip(1)[i],
        ) by {
            assert(word.skip(1)[i] == word[i + 1]);
        }
        words_end_at_whitespace(word.skip(1), rest);
    } else {
        assert(word + rest =~= rest);
    }
}

/// A line of a comment that describes a function.
pub open spec fn description_line(t: Seq<char>) -> Seq<char> {
    "--- "@ + t
}

/// A line of a comment that describes a parameter.
pub open spec fn param_line(p: (Seq<char>, Seq<char>)) -> Seq<char> {
    "-- @param "@ + p.0 + " "@ + p.1
}

/// A line of code: something that is no comment stands in it.
pub open spec fn is_code(line: Seq<char>) -> bool {
    text::trimmed(line).len() > 0 && !"--"@.is_prefix_of(text::trimmed(line))
}

/// The comments directly above a function document it: their texts, in their order
/// and with a space between two, are its description, and the parameters that they
/// describe are its parameters, in their order. What is known of other functions
/// stays.
pub proof fn comments_document_the_function_below(
    before: Seq<Seq<char>>,
    texts: Seq<Seq<char>>,
    params: Seq<(Seq<char>, Seq<char>)>,
    name: Seq<char>,
    rest: Seq<char>,
    other: Seq<char>,
)
    requires
        before.len() > 0 ==> is_code(before.last()),
        forall|i: int| 0 <= i < texts.len() ==> is_phrase(#[trigger] texts[i]),
        forall|i: int|
            0 <= i < params.len() ==> is_word((#[trigger] params[i]).0) && is_phrase(params[i].1),
        texts.len() + params.len() > 0,
        is_name(name),
        is_phrase(rest),
        !is_name_char(rest[0]),
        rest[0] != '.' && rest[0] != ':',
        other != name,
    ensures
        ({
            let lines = before + texts.map_values(|t: Seq<char>| description_line(t))
                + params.map_values(|p: (Seq<char>, Seq<char>)| param_line(p));
            let found = doc_search(lines.push("function "@ + name + rest)).found;
            &&& table::lookup(found, name) is Some
            &&& texts.len() > 0 ==> table::lookup(found, name)->0.description == Some(
                text::joined(texts, seq![' ']),
            )
            &&& texts.len() == 0 ==> table::lookup(found, name)->0.description is None
            &&& table::lookup(found, name)->0.params == params
            &&& table::lookup(found, other) == table::lookup(doc_search(before).found, other)
        }),
{
    let start = doc_search(before);
    code_ends_a_comment(before);
    let told = texts.map_values(|t: Seq<char>| description_line(t));
    let listed = params.map_values(|p: (Seq<char>, Seq<char>)| param_line(p));
    descriptions_are_gathered(before, texts);
    params_are_gathered(before + told, params);
    let lines = before + told + listed;
    let s = doc_search(lines);
    assert(s.description =~= texts);
    assert(s.params =~= params);
    assert(s.pending);
    let line = "function "@ + name + rest;
    reveal_strlit("function ");
    reveal_strlit("function");
    reveal_strlit("--");
    reveal_strlit("---");
    reveal_strlit(" ");
    assert(" "@ =~= seq![' ']);
    let space = Seq::<char>::empty();
    assert("function "@ =~= "function"@ + seq![' ']);
    assert(line =~= "function"@ + seq![' '] + name + space + rest);
    assert(space + rest =~= rest);
    assert(text::is_blank(seq![' ']));
    functions_are_declared_under_plain_names(seq![' '], name, space, rest);
    text::trimming_finds_the_text_between(seq![], line, seq![]);
    assert(seq![] + line + seq![] =~= line);
    assert(line[0] == 'f');
    assert(!"--"@.is_prefix_of(line)) by {
        if "--"@.is_prefix_of(line) {
            assert(line.take(2)[0] == '-');
        }
    }
    assert(!"---"@.is_prefix_of(line)) by {
        if "---"@.is_prefix_of(line) {
            assert(line.take(3)[0] == '-');
        }
    }
    let all = lines.push(line);
    assert(all.drop_last() =~= lines);
    assert(all.last() == line);
    assert(doc_search(all) == doc_step(s, line));
    table::lookup_after_put(s.found, name, pending_doc(s), other);
}

/// Behind a line of code no comment is under way.
proof fn code_ends_a_comment(lines: Seq<Seq<char>>)
    requires
        lines.len() > 0 ==> is_code(lines.last()),
    ensures
        doc_search(lines).description.len() == 0,
        doc_search(lines).params.len() == 0,
        !doc_search(lines).pending,
{
    reveal_strlit("--");
    reveal_strlit("---");
    if lines.len() > 0 {
        let line = text::trimmed(lines.last());
        if "---"@.is_prefix_of(line) {
            assert("--"@ =~= line.take(2)) by {
                assert(line.take(3)[0] == '-');
                assert(line.take(3)[1] == '-');
            }
        }
    }
}

/// Lines that describe a function add their texts to what is known of it.
proof fn descriptions_are_gathered(before: Seq<Seq<char>>, texts: Seq<Seq<char>>)
    requires
        forall|i: int| 0 <= i < texts.len() ==> is_phrase(#[trigger] texts[i]),
    ensures
        ({
            let s = doc_search(before);
            let new = doc_search(before + texts.map_values(|t: Seq<char>| description_line(t)));
            &&& new.found == s.found
            &&& new.description == s.description + texts
            &&& new.params == s.params
            &&& new.pending == (s.pending || texts.len() > 0)
        }),
    decreases texts.len(),
{
    let told = texts.map_values(|t: Seq<char>| description_line(t));
    if texts.len() == 0 {
        assert(before + told =~= before);
        assert(doc_search(before).description + texts =~= doc_search(before).description);
    } else {
        let fewer = texts.drop_last();
        let t = texts.last();
        assert(is_phrase(texts[texts.len() - 1]));
        assert forall|i: int| 0 <= i < fewer.len() implies is_phrase(#[trigger] fewer[i]) by {
            assert(fewer[i] == texts[i]);
        }
        descriptions_are_gathered(before, fewer);
        let shorter = fewer.map_values(|t: Seq<char>| description_line(t));
        assert((before + told).drop_last() =~= before + shorter);
        let line = description_line(t);
        assert((before + told).last() == line);
        reveal_strlit("---");
        reveal_strlit("--- ");
        text::trimming_finds_the_text_between(seq![], line, seq![]);
        assert(seq![] + line + seq![] =~= line);
        assert(line =~= "---"@ + (seq![' '] + t));
        text::prefixes_and_suffixes_come_off("---"@, seq![' '] + t);
        assert(text::is_blank(seq![' ']));
        text::trimming_finds_the_text_between(seq![' '], t, seq![]);
        assert(seq![' '] + t + seq![] =~= seq![' '] + t);
        assert(doc_search(before).description + texts =~= (doc_search(before).description
            + fewer).push(t));
    }
}

/// Lines that describe parameters add these to what is known of a function.
proof fn params_are_gathered(before: Seq<Seq<char>>, params: Seq<(Seq<char>, Seq<char>)>)
    requires
        forall|i: int|
            0 <= i < params.len() ==> is_word((#[trigger] params[i]).0) && is_phrase(params[i].1),
    ensures
        ({
            let s = doc_search(before);
            let new = doc_search(
                before + params.map_values(|p: (Seq<char>, Seq<char>)| param_line(p)),
            );
            &&& new.found == s.found
            &&& new.description == s.description
            &&& new.params == s.params + params
            &&& new.pending == (s.pending || params.len() > 0)
        }),
    decreases params.len(),
{
    let listed = params.map_values(|p: (Seq<char>, Seq<char>)| param_line(p));
    if params.len() == 0 {
        assert(before + listed =~= before);
        assert(doc_search(before).params + params =~= doc_search(before).params);
    } else {
        let fewer = params.drop_last();
        let p = params.last();
        assert(is_word(params[params.len() - 1].0) && is_phrase(params[params.len() - 1].1));
        assert forall|i: int| 0 <= i < fewer.len() implies is_word((#[trigger] fewer[i]).0)
            && is_phrase(fewer[i].1) by {
            assert(fewer[i] == params[i]);
        }
        params_are_gathered(before, fewer);
        let shorter = fewer.map_values(|p: (Seq<char>, Seq<char>)| param_line(p));
        assert((before + listed).drop_last() =~= before + shorter);
        assert((before + listed).last() == param_line(p));
        param_line_is_read(p);
        assert(doc_search(before).params + params =~= (doc_search(before).params + fewer).push(p));
    }
}

/// A line that describes a parameter is read as that.
proof fn param_line_is_read(p: (Seq<char>, Seq<char>))
    requires
        is_word(p.0),
        is_phrase(p.1),
    ensures
        text::without_prefix(text::trimmed(param_line(p)), "---"@) is None,
        text::without_prefix(text::trimmed(param_line(p)), "--"@) is Some,
        ({
            let rest = text::without_prefix(text::trimmed(param_line(p)), "--"@)->0;
            let named = text::without_prefix(text::trimmed(rest), "@param"@);
            named is Some && named_param(text::trimmed(named->0)) == Some(p)
        }),
{
    reveal_strlit("-- @param ");
    reveal_strlit("---");
    reveal_strlit("--");
    reveal_strlit("@param");
    reveal_strlit(" ");
    let line = param_line(p);
    let inner = p.0 + seq![' '] + p.1;
    let marked = "@param"@ + (seq![' '] + inner);
    let blank = Seq::<char>::empty();
    assert(!text::is_white_space(p.0[0]));
    assert(inner[0] == p.0[0]);
    text::trimming_finds_the_text_between(blank, line, blank);
    assert(blank + line + blank =~= line);
    assert(line =~= "--"@ + (seq![' '] + marked));
    text::prefixes_and_suffixes_come_off("--"@, seq![' '] + marked);
    assert(!"---"@.is_prefix_of(line)) by {
        if "---"@.is_prefix_of(line) {
            assert(line.take(3)[2] == '-');
        }
    }
    assert(text::is_blank(seq![' ']));
    text::trimming_finds_the_text_between(seq![' '], marked, blank);
    assert(seq![' '] + marked + blank =~= seq![' '] + marked);
    text::prefixes_and_suffixes_come_off("@param"@, seq![' '] + inner);
    text::trimming_finds_the_text_between(seq![' '], inner, blank);
    assert(seq![' '] + inner + blank =~= seq![' '] + inner);
    words_end_at_whitespace(p.0, seq![' '] + p.1);
    assert(inner =~= p.0 + (seq![' '] + p.1));
    assert(inner.take(p.0.len() as int) =~= p.0);
    assert(inner.skip(p.0.len() as int + 1) =~= p.1);
    assert(!text::is_white_space(p.0[p.0.len() - 1]));
    text::trimming_finds_the_text_between(blank, p.0, blank);
    text::trimming_finds_the_text_between(blank, p.1, blank);
    assert(blank + p.0 + blank =~= p.0);
    assert(blank + p.1 + blank =~= p.1);
}

/// No function is documented twice.
proof fn documented_names_are_distinct(lines: Seq<Seq<char>>)
    ensures
        table::distinct_keys(doc_search(lines).found),
    decreases lines.len(),
{
    if lines.len() > 0 {
        let s = doc_search(lines.drop_last());
        documented_names_are_distinct(lines.drop_last());
        if let Some(name) = declared_name(text::trimmed(lines.last())) {
            table::put_keeps_distinct(s.found, name, pending_doc(s));
        }
    }
}

/// The comments of a source are those of its lines, and of several sources the last
/// that documents a name counts.
pub proof fn sources_are_searched_line_by_line(
    lines: Seq<Seq<char>>,
    sources: Seq<Seq<char>>,
    name: Seq<char>,
)
    requires
        forall|i: int| 0 <= i < lines.len() ==> !(#[trigger] lines[i]).contains('\n'),
        forall|i: int|
            0 <= i < lines.len() - 1 ==> (#[trigger] lines[i]).len() == 0 || lines[i].last()
                != '\r',
        lines.len() > 0 ==> lines.last().len() > 0,
    ensures
        doc_comments(text::joined(lines, seq!['\n'])) == doc_search(lines).found,
        sources.len() > 0 ==> table::lookup(all_doc_comments(sources), name) == (
        if table::lookup(doc_comments(sources.last()), name) is Some {
            table::lookup(doc_comments(sources.last()), name)
        } else {
            table::lookup(all_doc_comments(sources.drop_last()), name)
        }),
        sources.len() == 0 ==> table::lookup(all_doc_comments(sources), name) is None,
{
    text::joined_lines_are_read_back(lines);
    if sources.len() > 0 {
        let last = doc_comments(sources.last());
        documented_names_are_distinct(text::lines_of(sources.last()));
        table::put_all_looks_behind_first(all_doc_comments(sources.drop_last()), last, name);
    }
}

/// Other comments and empty lines between a comment and its function do not part
/// them.
pub proof fn other_comments_do_not_count(s: DocState, rest: Seq<char>, blank: Seq<char>)
    requires
        rest.len() == 0 || is_phrase(rest) && rest[0] != '-' && !"@param"@.is_prefix_of(rest),
        text::is_blank(blank),
    ensures
        doc_step(s, "--"@ + rest) == s,
        doc_step(s, blank) == s,
{
    reveal_strlit("--");
    reveal_strlit("---");
    reveal_strlit("@param");
    reveal_strlit("function");
    let none = Seq::<char>::empty();
    let line = "--"@ + rest;
    text::trimming_finds_the_text_between(none, line, none);
    assert(none + line + none =~= line);
    assert(!"---"@.is_prefix_of(line)) by {
        if "---"@.is_prefix_of(line) {
            assert(line.take(3)[2] == '-');
        }
    }
    text::prefixes_and_suffixes_come_off("--"@, rest);
    text::trimming_finds_the_text_between(none, rest, none);
    assert(none + rest + none =~= rest);
    text::trimming_finds_the_text_between(blank, none, none);
    assert(blank + none + none =~= blank);
    assert(text::trimmed(blank) =~= none);
    assert(!"---"@.is_prefix_of(none));
    assert(!"--"@.is_prefix_of(none));
    assert(declared_name(none) is None);
}

/// A line of code that declares no function ends the comment above it: what follows
/// is not documented by that.
pub proof fn code_parts_a_comment_from_a_function(s: DocState, line: Seq<char>)
    requires
        is_code(line),
        declared_name(text::trimmed(line)) is None,
    ensures
        doc_step(s, line).found == s.found,
        doc_step(s, line).description.len() == 0,
        doc_step(s, line).params.len() == 0,
        !doc_step(s, line).pending,
{
    reveal_strlit("--");
    reveal_strlit("---");
    let t = text::trimmed(line);
    if "---"@.is_prefix_of(t) {
        assert("--"@ =~= t.take(2)) by {
            assert(t.take(3)[0] == '-');
            assert(t.take(3)[1] == '-');
        }
    }
}

} // verus!
