//! Rewriting of tracker-native markup into Markdown: headings, single-star
//! emphasis, code-fence openers, and piped links, applied in that fixed
//! order. Every rule is total; markup it cannot match stays literal text.

use vstd::prelude::*;

verus! {

// ---------------------------------------------------------------------------
// Rule 1: line-anchored heading markers `h1.` / `h2.` / `h3.`
// ---------------------------------------------------------------------------
/// A heading marker `h<d>.` followed by a space stands at `i`.
pub open spec fn is_heading_at(s: Seq<char>, i: int, d: char) -> bool {
    &&& 0 <= i
    &&& i + 3 < s.len()
    &&& s[i] == 'h'
    &&& s[i + 1] == d
    &&& s[i + 2] == '.'
    &&& s[i + 3] == ' '
}

/// The heading rule applied to `s` from `i` on; `at_line_start` records
/// whether `i` begins a line, since markers match only there.
pub open spec fn spec_headings_from(s: Seq<char>, i: int, at_line_start: bool) -> Seq<char>
    decreases s.len() - i,
{
    if i < 0 || i >= s.len() {
        Seq::empty()
    } else if at_line_start && is_heading_at(s, i, '1') {
        "# "@ + spec_headings_from(s, i + 4, false)
    } else if at_line_start && is_heading_at(s, i, '2') {
        "## "@ + spec_headings_from(s, i + 4, false)
    } else if at_line_start && is_heading_at(s, i, '3') {
        "### "@ + spec_headings_from(s, i + 4, false)
    } else {
        s.subrange(i, i + 1) + spec_headings_from(s, i + 1, s[i] == '\n')
    }
}

/// The heading rule over a whole text.
pub open spec fn spec_headings(s: Seq<char>) -> Seq<char> {
    spec_headings_from(s, 0, true)
}

/// Which heading marker stands at `i` (0 when none does).
fn heading_level_at(text: &str, i: usize, at_line_start: bool) -> (r: u8)
    requires
        i < text@.len(),
    ensures
        (r == 1) <==> (at_line_start && is_heading_at(text@, i as int, '1')),
        (r == 2) <==> (at_line_start && is_heading_at(text@, i as int, '2')),
        (r == 3) <==> (at_line_start && is_heading_at(text@, i as int, '3')),
        r == 0 || r == 1 || r == 2 || r == 3,
{
    let len = text.unicode_len();
    if !at_line_start || len - i < 4 {
        return 0;
    }
    if text.get_char(i) != 'h' || text.get_char(i + 2) != '.' || text.get_char(i + 3) != ' ' {
        return 0;
    }
    let d = text.get_char(i + 1);
    if d == '1' {
        1
    } else if d == '2' {
        2
    } else if d == '3' {
        3
    } else {
        0
    }
}

/// Rewrites `h1.`/`h2.`/`h3.` markers at line starts into `#`/`##`/`###`.
pub fn heading_rule(text: &str) -> (r: String)
    ensures
        r@ == spec_headings(text@),
{
    let len = text.unicode_len();
    let mut out = String::new();
    let mut i: usize = 0;
    let mut at_start: bool = true;
    while i < len
        invariant
            len == text@.len(),
            0 <= i <= len,
            spec_headings(text@) == out@ + spec_headings_from(text@, i as int, at_start),
        decreases len - i,
    {
        let ghost rest = spec_headings_from(text@, i as int, at_start);
        let level = heading_level_at(text, i, at_start);
        if level == 1 {
            out.append("# ");
            proof {
                assert(rest == "# "@ + spec_headings_from(text@, i + 4, false));
                assert(out@ + spec_headings_from(text@, i + 4, false) =~= spec_headings(text@));
            }
            i += 4;
            at_start = false;
        } else if level == 2 {
            out.append("## ");
            proof {
                assert(rest == "## "@ + spec_headings_from(text@, i + 4, false));
                assert(out@ + spec_headings_from(text@, i + 4, false) =~= spec_headings(text@));
            }
            i += 4;
            at_start = false;
        } else if level == 3 {
            out.append("### ");
            proof {
                assert(rest == "### "@ + spec_headings_from(text@, i + 4, false));
                assert(out@ + spec_headings_from(text@, i + 4, false) =~= spec_headings(text@));
            }
            i += 4;
            at_start = false;
        } else {
            let c = text.get_char(i);
            out.append(text.substring_char(i, i + 1));
            proof {
                assert(rest == text@.subrange(i as int, i + 1) + spec_headings_from(
                    text@,
                    i + 1,
                    text@[i as int] == '\n',
                ));
                assert(out@ + spec_headings_from(text@, i + 1, text@[i as int] == '\n')
                    =~= spec_headings(text@));
            }
            at_start = c == '\n';
            i += 1;
        }
    }
    proof {
        assert(out@ + spec_headings_from(text@, len as int, at_start) =~= out@);
    }
    out
}

// ---------------------------------------------------------------------------
// Rule 2: single-asterisk emphasis `*word*` -> `**word**`
// ---------------------------------------------------------------------------
/// Length of the run of characters from `i` on that may stand inside an
/// emphasis span: anything but `*` and a line break.
pub open spec fn emph_run(s: Seq<char>, i: int) -> nat
    decreases s.len() - i,
{
    if i < 0 || i >= s.len() || s[i] == '*' || s[i] == '\n' {
        0
    } else {
        (emph_run(s, i + 1) + 1) as nat
    }
}

/// The emphasis rule applied to `s` from `i` on.
pub open spec fn spec_emphasis_from(s: Seq<char>, i: int) -> Seq<char>
    decreases s.len() - i,
{
    if i < 0 || i >= s.len() {
        Seq::empty()
    } else if s[i] == '*' {
        let k = emph_run(s, i + 1) as int;
        if k >= 1 && i + 1 + k < s.len() && s[i + 1 + k] == '*' {
            "**"@ + s.subrange(i + 1, i + 1 + k) + "**"@ + spec_emphasis_from(s, i + 2 + k)
        } else {
            s.subrange(i, i + 1) + spec_emphasis_from(s, i + 1)
        }
    } else {
        s.subrange(i, i + 1) + spec_emphasis_from(s, i + 1)
    }
}

/// The emphasis rule over a whole text.
pub open spec fn spec_emphasis(s: Seq<char>) -> Seq<char> {
    spec_emphasis_from(s, 0)
}

/// Whether the character at `j` may stand inside an emphasis span.
fn emph_char_ok(text: &str, j: usize) -> (r: bool)
    requires
        j < text@.len(),
    ensures
        r == (text@[j as int] != '*' && text@[j as int] != '\n'),
{
    let c = text.get_char(j);
    c != '*' && c != '\n'
}

/// Rewrites `*word*` spans into `**word**`; a star without a closing star
/// on the same line stays literal.
pub fn emphasis_rule(text: &str) -> (r: String)
    ensures
        r@ == spec_emphasis(text@),
{
    let len = text.unicode_len();
    let mut out = String::new();
    let mut i: usize = 0;
    while i < len
        invariant
            len == text@.len(),
            0 <= i <= len,
            spec_emphasis(text@) == out@ + spec_emphasis_from(text@, i as int),
        decreases len - i,
    {
        let ghost rest = spec_emphasis_from(text@, i as int);
        let c = text.get_char(i);
        if c == '*' {
            let mut j: usize = i + 1;
            while j < len && emph_char_ok(text, j)
                invariant
                    len == text@.len(),
                    i + 1 <= j <= len,
                    emph_run(text@, i + 1) == j - i - 1 + emph_run(text@, j as int),
                decreases len - j,
            {
                j += 1;
            }
            proof {
                assert(emph_run(text@, j as int) == 0);
            }
            let k = j - i - 1;
            if k >= 1 && j < len && text.get_char(j) == '*' {
                out.append("**");
                out.append(text.substring_char(i + 1, j));
                out.append("**");
                proof {
                    assert(rest == "**"@ + text@.subrange(i + 1, j as int) + "**"@
                        + spec_emphasis_from(text@, j + 1));
                    assert(out@ + spec_emphasis_from(text@, j + 1) =~= spec_emphasis(text@));
                }
                i = j + 1;
            } else {
                out.append(text.substring_char(i, i + 1));
                proof {
                    assert(rest == text@.subrange(i as int, i + 1) + spec_emphasis_from(
                        text@,
                        i + 1,
                    ));
                    assert(out@ + spec_emphasis_from(text@, i + 1) =~= spec_emphasis(text@));
                }
                i += 1;
            }
        } else {
            out.append(text.substring_char(i, i + 1));
            proof {
                assert(rest == text@.subrange(i as int, i + 1) + spec_emphasis_from(text@, i + 1));
                assert(out@ + spec_emphasis_from(text@, i + 1) =~= spec_emphasis(text@));
            }
            i += 1;
        }
    }
    proof {
        assert(out@ + spec_emphasis_from(text@, len as int) =~= out@);
    }
    out
}

// ---------------------------------------------------------------------------
// Rule 3: code-fence openers `{code}`, `{code:<lang>}`, `{noformat}`
// ---------------------------------------------------------------------------
/// The literal marker `{code}` stands at `i`.
pub open spec fn is_code_open(s: Seq<char>, i: int) -> bool {
    &&& 0 <= i
    &&& i + 6 <= s.len()
    &&& s[i] == '{'
    &&& s[i + 1] == 'c'
    &&& s[i + 2] == 'o'
    &&& s[i + 3] == 'd'
    &&& s[i + 4] == 'e'
    &&& s[i + 5] == '}'
}

/// The prefix `{code:` stands at `i`.
pub open spec fn is_code_lang_prefix(s: Seq<char>, i: int) -> bool {
    &&& 0 <= i
    &&& i + 6 <= s.len()
    &&& s[i] == '{'
    &&& s[i + 1] == 'c'
    &&& s[i + 2] == 'o'
    &&& s[i + 3] == 'd'
    &&& s[i + 4] == 'e'
    &&& s[i + 5] == ':'
}

/// The literal marker `{noformat}` stands at `i`.
pub open spec fn is_noformat(s: Seq<char>, i: int) -> bool {
    &&& 0 <= i
    &&& i + 10 <= s.len()
    &&& s[i] == '{'
    &&& s[i + 1] == 'n'
    &&& s[i + 2] == 'o'
    &&& s[i + 3] == 'f'
    &&& s[i + 4] == 'o'
    &&& s[i + 5] == 'r'
    &&& s[i + 6] == 'm'
    &&& s[i + 7] == 'a'
    &&& s[i + 8] == 't'
    &&& s[i + 9] == '}'
}

/// Length of the run of characters from `i` on that may stand in a fence
/// language name: anything but `}` and a line break.
pub open spec fn lang_run(s: Seq<char>, i: int) -> nat
    decreases s.len() - i,
{
    if i < 0 || i >= s.len() || s[i] == '}' || s[i] == '\n' {
        0
    } else {
        (lang_run(s, i + 1) + 1) as nat
    }
}

/// The code-fence rule applied to `s` from `i` on. Only opening fences are
/// rewritten; closing markers are a known limitation and stay literal.
pub open spec fn spec_code_from(s: Seq<char>, i: int) -> Seq<char>
    decreases s.len() - i,
{
    if i < 0 || i >= s.len() {
        Seq::empty()
    } else if is_code_open(s, i) {
        "```"@ + spec_code_from(s, i + 6)
    } else if is_code_lang_prefix(s, i) {
        let k = lang_run(s, i + 6) as int;
        if k >= 1 && i + 6 + k < s.len() && s[i + 6 + k] == '}' {
            "```"@ + s.subrange(i + 6, i + 6 + k) + spec_code_from(s, i + 7 + k)
        } else {
            s.subrange(i, i + 1) + spec_code_from(s, i + 1)
        }
    } else if is_noformat(s, i) {
        "```"@ + spec_code_from(s, i + 10)
    } else {
        s.subrange(i, i + 1) + spec_code_from(s, i + 1)
    }
}

/// The code-fence rule over a whole text.
pub open spec fn spec_code(s: Seq<char>) -> Seq<char> {
    spec_code_from(s, 0)
}

/// Whether `{code}` stands at `i`.
fn code_open_at(text: &str, i: usize) -> (r: bool)
    requires
        i < text@.len(),
    ensures
        r == is_code_open(text@, i as int),
{
    let len = text.unicode_len();
    if len - i < 6 {
        return false;
    }
    text.get_char(i) == '{' && text.get_char(i + 1) == 'c' && text.get_char(i + 2) == 'o'
        && text.get_char(i + 3) == 'd' && text.get_char(i + 4) == 'e' && text.get_char(i + 5)
        == '}'
}

/// Whether `{code:` stands at `i`.
fn code_lang_prefix_at(text: &str, i: usize) -> (r: bool)
    requires
        i < text@.len(),
    ensures
        r == is_code_lang_prefix(text@, i as int),
{
    let len = text.unicode_len();
    if len - i < 6 {
        return false;
    }
    text.get_char(i) == '{' && text.get_char(i + 1) == 'c' && text.get_char(i + 2) == 'o'
        && text.get_char(i + 3) == 'd' && text.get_char(i + 4) == 'e' && text.get_char(i + 5)
        == ':'
}

/// Whether `{noformat}` stands at `i`.
fn noformat_at(text: &str, i: usize) -> (r: bool)
    requires
        i < text@.len(),
    ensures
        r == is_noformat(text@, i as int),
{
    let len = text.unicode_len();
    if len - i < 10 {
        return false;
    }
    text.get_char(i) == '{' && text.get_char(i + 1) == 'n' && text.get_char(i + 2) == 'o'
        && text.get_char(i + 3) == 'f' && text.get_char(i + 4) == 'o' && text.get_char(i + 5)
        == 'r' && text.get_char(i + 6) == 'm' && text.get_char(i + 7) == 'a' && text.get_char(
        i + 8,
    ) == 't' && text.get_char(i + 9) == '}'
}

/// Whether the character at `j` may stand in a fence language name.
fn lang_char_ok(text: &str, j: usize) -> (r: bool)
    requires
        j < text@.len(),
    ensures
        r == (text@[j as int] != '}' && text@[j as int] != '\n'),
{
    let c = text.get_char(j);
    c != '}' && c != '\n'
}

/// Rewrites `{code}`, `{code:<lang>}` and `{noformat}` markers into
/// triple-backtick fence openers.
pub fn code_fence_rule(text: &str) -> (r: String)
    ensures
        r@ == spec_code(text@),
{
    let len = text.unicode_len();
    let mut out = String::new();
    let mut i: usize = 0;
    while i < len
        invariant
            len == text@.len(),
            0 <= i <= len,
            spec_code(text@) == out@ + spec_code_from(text@, i as int),
        decreases len - i,
    {
        let ghost rest = spec_code_from(text@, i as int);
        if code_open_at(text, i) {
            out.append("```");
            proof {
                assert(rest == "```"@ + spec_code_from(text@, i + 6));
                assert(out@ + spec_code_from(text@, i + 6) =~= spec_code(text@));
            }
            i += 6;
        } else if code_lang_prefix_at(text, i) {
            let mut j: usize = i + 6;
            while j < len && lang_char_ok(text, j)
                invariant
                    len == text@.len(),
                    i + 6 <= j <= len,
                    lang_run(text@, i + 6) == j - i - 6 + lang_run(text@, j as int),
                decreases len - j,
            {
                j += 1;
            }
            proof {
                assert(lang_run(text@, j as int) == 0);
            }
            let k = j - i - 6;
            if k >= 1 && j < len && text.get_char(j) == '}' {
                out.append("```");
                out.append(text.substring_char(i + 6, j));
                proof {
                    assert(rest == "```"@ + text@.subrange(i + 6, j as int) + spec_code_from(
                        text@,
                        j + 1,
                    ));
                    assert(out@ + spec_code_from(text@, j + 1) =~= spec_code(text@));
                }
                i = j + 1;
            } else {
                out.append(text.substring_char(i, i + 1));
                proof {
                    assert(rest == text@.subrange(i as int, i + 1) + spec_code_from(text@, i + 1));
                    assert(out@ + spec_code_from(text@, i + 1) =~= spec_code(text@));
                }
                i += 1;
            }
        } else if noformat_at(text, i) {
            out.append("```");
            proof {
                assert(rest == "```"@ + spec_code_from(text@, i + 10));
                assert(out@ + spec_code_from(text@, i + 10) =~= spec_code(text@));
            }
            i += 10;
        } else {
            out.append(text.substring_char(i, i + 1));
            proof {
                assert(rest == text@.subrange(i as int, i + 1) + spec_code_from(text@, i + 1));
                assert(out@ + spec_code_from(text@, i + 1) =~= spec_code(text@));
            }
            i += 1;
        }
    }
    proof {
        assert(out@ + spec_code_from(text@, len as int) =~= out@);
    }
    out
}

// ---------------------------------------------------------------------------
// Rule 4: piped links `[label|url]` -> `[label](url)`
// ---------------------------------------------------------------------------
/// Length of the run of characters from `i` on that may stand in a link
/// label: anything but `|`, `]` and a line break.
pub open spec fn label_run(s: Seq<char>, i: int) -> nat
    decreases s.len() - i,
{
    if i < 0 || i >= s.len() || s[i] == '|' || s[i] == ']' || s[i] == '\n' {
        0
    } else {
        (label_run(s, i + 1) + 1) as nat
    }
}

/// Length of the run of characters from `i` on that may stand in a link
/// target: anything but `]` and a line break.
pub open spec fn url_run(s: Seq<char>, i: int) -> nat
    decreases s.len() - i,
{
    if i < 0 || i >= s.len() || s[i] == ']' || s[i] == '\n' {
        0
    } else {
        (url_run(s, i + 1) + 1) as nat
    }
}

/// The piped-link rule applied to `s` from `i` on.
pub open spec fn spec_links_from(s: Seq<char>, i: int) -> Seq<char>
    decreases s.len() - i,
{
    if i < 0 || i >= s.len() {
        Seq::empty()
    } else if s[i] == '[' {
        let k1 = label_run(s, i + 1) as int;
        if k1 >= 1 && i + 1 + k1 < s.len() && s[i + 1 + k1] == '|' {
            let k2 = url_run(s, i + 2 + k1) as int;
            if k2 >= 1 && i + 2 + k1 + k2 < s.len() && s[i + 2 + k1 + k2] == ']' {
                "["@ + s.subrange(i + 1, i + 1 + k1) + "]("@ + s.subrange(
                    i + 2 + k1,
                    i + 2 + k1 + k2,
                ) + ")"@ + spec_links_from(s, i + 3 + k1 + k2)
            } else {
                s.subrange(i, i + 1) + spec_links_from(s, i + 1)
            }
        } else {
            s.subrange(i, i + 1) + spec_links_from(s, i + 1)
        }
    } else {
        s.subrange(i, i + 1) + spec_links_from(s, i + 1)
    }
}

/// The piped-link rule over a whole text.
pub open spec fn spec_links(s: Seq<char>) -> Seq<char> {
    spec_links_from(s, 0)
}

/// Whether the character at `j` may stand in a link label.
fn label_char_ok(text: &str, j: usize) -> (r: bool)
    requires
        j < text@.len(),
    ensures
        r == (text@[j as int] != '|' && text@[j as int] != ']' && text@[j as int] != '\n'),
{
    let c = text.get_char(j);
    c != '|' && c != ']' && c != '\n'
}

/// Whether the character at `j` may stand in a link target.
fn url_char_ok(text: &str, j: usize) -> (r: bool)
    requires
        j < text@.len(),
    ensures
        r == (text@[j as int] != ']' && text@[j as int] != '\n'),
{
    let c = text.get_char(j);
    c != ']' && c != '\n'
}

/// Rewrites `[label|url]` into `[label](url)`; partial link syntax stays
/// literal.
pub fn link_rule(text: &str) -> (r: String)
    ensures
        r@ == spec_links(text@),
{
    let len = text.unicode_len();
    let mut out = String::new();
    let mut i: usize = 0;
    while i < len
        invariant
            len == text@.len(),
            0 <= i <= len,
            spec_links(text@) == out@ + spec_links_from(text@, i as int),
        decreases len - i,
    {
        let ghost rest = spec_links_from(text@, i as int);
        let c = text.get_char(i);
        let mut rewrote: bool = false;
        if c == '[' {
            let mut j: usize = i + 1;
            while j < len && label_char_ok(text, j)
                invariant
                    len == text@.len(),
                    i + 1 <= j <= len,
                    label_run(text@, i + 1) == j - i - 1 + label_run(text@, j as int),
                decreases len - j,
            {
                j += 1;
            }
            proof {
                assert(label_run(text@, j as int) == 0);
            }
            let k1 = j - i - 1;
            if k1 >= 1 && j < len && text.get_char(j) == '|' {
                let mut m: usize = j + 1;
                while m < len && url_char_ok(text, m)
                    invariant
                        len == text@.len(),
                        j + 1 <= m <= len,
                        url_run(text@, j + 1) == m - j - 1 + url_run(text@, m as int),
                    decreases len - m,
                {
                    m += 1;
                }
                proof {
                    assert(url_run(text@, m as int) == 0);
                }
                let k2 = m - j - 1;
                if k2 >= 1 && m < len && text.get_char(m) == ']' {
                    out.append("[");
                    out.append(text.substring_char(i + 1, j));
                    out.append("](");
                    out.append(text.substring_char(j + 1, m));
                    out.append(")");
                    proof {
                        assert(rest == "["@ + text@.subrange(i + 1, j as int) + "]("@
                            + text@.subrange(j + 1, m as int) + ")"@ + spec_links_from(
                            text@,
                            m + 1,
                        ));
                        assert(out@ + spec_links_from(text@, m + 1) =~= spec_links(text@));
                    }
                    i = m + 1;
                    rewrote = true;
                }
            }
        }
        if !rewrote {
            out.append(text.substring_char(i, i + 1));
            proof {
                assert(rest == text@.subrange(i as int, i + 1) + spec_links_from(text@, i + 1));
                assert(out@ + spec_links_from(text@, i + 1) =~= spec_links(text@));
            }
            i += 1;
        }
    }
    proof {
        assert(out@ + spec_links_from(text@, len as int) =~= out@);
    }
    out
}

// ---------------------------------------------------------------------------
// The full translation
// ---------------------------------------------------------------------------
/// All four rewrites in their canonical order: headings, then emphasis,
/// then code fences, then links.
pub open spec fn spec_translate(s: Seq<char>) -> Seq<char> {
    spec_links(spec_code(spec_emphasis(spec_headings(s))))
}

/// Rewrites tracker markup into Markdown. Total: input that matches no
/// rule comes back unchanged.
pub fn translate(text: &str) -> (r: String)
    ensures
        r@ == spec_translate(text@),
{
    let step1 = heading_rule(text);
    let step2 = emphasis_rule(step1.as_str());
    let step3 = code_fence_rule(step2.as_str());
    link_rule(step3.as_str())
}

} // verus!
