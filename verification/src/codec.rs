use vstd::prelude::*;
use vstd::string::*;
use crate::chars::{
    append_str, char_from_code, chars_to_string, digit_char, digit_char_spec, hex_val,
    hex_val_spec, lemma_digit_char_val, str_eq, str_to_chars,
};
use crate::error::TaskError;
use crate::priority::Priority;
use crate::task::{Task, TaskView};
use crate::time::parse_iso;

verus! {

// ---------------------------------------------------------------------------
// The serialized form this library writes: a single JSON array, one object
// per task, members in the order name, description, priority, add_time, no
// whitespace. The reader below accepts the whole JSON language for this
// schema: whitespace between tokens, members in any order, standard string
// escapes.
// ---------------------------------------------------------------------------

/// How one character appears inside a written JSON string: quote and
/// backslash are escaped, control characters become `\u00XX`, everything
/// else is itself.
pub open spec fn escaped_char(c: char) -> Seq<char> {
    if c == '"' {
        seq!['\\', '"']
    } else if c == '\\' {
        seq!['\\', '\\']
    } else if (c as u32) < 32 {
        seq![
            '\\',
            'u',
            '0',
            '0',
            digit_char_spec((c as u32 / 16) as int),
            digit_char_spec((c as u32 % 16) as int),
        ]
    } else {
        seq![c]
    }
}

/// The body of a written JSON string holding exactly the characters of `s`.
pub open spec fn escape_seq(s: Seq<char>) -> Seq<char>
    decreases s.len(),
{
    if s.len() == 0 {
        Seq::empty()
    } else {
        escaped_char(s[0]) + escape_seq(s.subrange(1, s.len() as int))
    }
}

/// The quoted JSON string holding the characters of `s`.
pub open spec fn jstr(s: Seq<char>) -> Seq<char> {
    seq!['"'] + escape_seq(s) + seq!['"']
}

/// The JSON object written for one task.
pub open spec fn json_of_task(tv: TaskView) -> Seq<char> {
    seq!['{'] + jstr("name"@) + seq![':'] + jstr(tv.name) + seq![','] + jstr("description"@)
        + seq![':'] + jstr(tv.description) + seq![','] + jstr("priority"@) + seq![':'] + jstr(
        tv.priority.label(),
    ) + seq![','] + jstr("add_time"@) + seq![':'] + jstr(tv.add_time.iso_of()) + seq!['}']
}

/// The comma-separated object list written for a task sequence.
pub open spec fn json_items(tvs: Seq<TaskView>) -> Seq<char>
    decreases tvs.len(),
{
    if tvs.len() == 0 {
        Seq::empty()
    } else if tvs.len() == 1 {
        json_of_task(tvs[0])
    } else {
        json_of_task(tvs[0]) + ","@ + json_items(tvs.subrange(1, tvs.len() as int))
    }
}

/// The complete file content written for a task sequence.
pub open spec fn json_of(tvs: Seq<TaskView>) -> Seq<char> {
    "["@ + json_items(tvs) + "]"@
}

/// The task views held by a task vector, in order.
pub open spec fn views_of(tasks: Seq<Task>) -> Seq<TaskView> {
    tasks.map_values(|t: Task| t@)
}

proof fn lemma_escape_snoc(s: Seq<char>, c: char)
    ensures
        escape_seq(s.push(c)) == escape_seq(s) + escaped_char(c),
    decreases s.len(),
{
    let sp = s.push(c);
    if s.len() == 0 {
        assert(sp[0] == c);
        assert(sp.subrange(1, sp.len() as int) =~= Seq::<char>::empty());
        assert(escape_seq(sp) == escaped_char(c) + escape_seq(sp.subrange(1, sp.len() as int)));
        assert(escape_seq(Seq::<char>::empty()) =~= Seq::<char>::empty());
        assert(escape_seq(sp) =~= escape_seq(s) + escaped_char(c));
    } else {
        assert(sp[0] == s[0]);
        assert(sp.subrange(1, sp.len() as int) =~= s.subrange(1, s.len() as int).push(c));
        lemma_escape_snoc(s.subrange(1, s.len() as int), c);
        assert(escape_seq(sp) =~= escape_seq(s) + escaped_char(c));
    }
}

proof fn lemma_items_snoc(tvs: Seq<TaskView>, t: TaskView)
    ensures
        json_items(tvs.push(t)) == (if tvs.len() == 0 {
            json_of_task(t)
        } else {
            json_items(tvs) + ","@ + json_of_task(t)
        }),
    decreases tvs.len(),
{
    let sp = tvs.push(t);
    if tvs.len() == 0 {
        assert(sp.len() == 1 && sp[0] == t);
    } else {
        assert(sp[0] == tvs[0]);
        assert(sp.subrange(1, sp.len() as int) =~= tvs.subrange(1, tvs.len() as int).push(t));
        lemma_items_snoc(tvs.subrange(1, tvs.len() as int), t);
        assert(json_items(sp) =~= json_items(tvs) + ","@ + json_of_task(t));
    }
}

fn push_escaped(out: &mut Vec<char>, s: &str)
    ensures
        final(out)@ == old(out)@ + escape_seq(s@),
{
    let n = s.unicode_len();
    let mut i: usize = 0;
    while i < n
        invariant
            n == s@.len(),
            i <= n,
            out@ == old(out)@ + escape_seq(s@.subrange(0, i as int)),
        decreases n - i,
    {
        let c = s.get_char(i);
        let cv = c as u32;
        if c == '"' {
            out.push('\\');
            out.push('"');
        } else if c == '\\' {
            out.push('\\');
            out.push('\\');
        } else if cv < 32 {
            out.push('\\');
            out.push('u');
            out.push('0');
            out.push('0');
            out.push(digit_char((cv / 16) as u8));
            out.push(digit_char((cv % 16) as u8));
        } else {
            out.push(c);
        }
        proof {
            lemma_escape_snoc(s@.subrange(0, i as int), s@[i as int]);
            assert(s@.subrange(0, i + 1 as int) =~= s@.subrange(0, i as int).push(s@[i as int]));
            assert(out@ =~= old(out)@ + escape_seq(s@.subrange(0, i + 1 as int)));
        }
        i = i + 1;
    }
    proof {
        assert(s@.subrange(0, n as int) =~= s@);
    }
}

fn push_jstr(out: &mut Vec<char>, s: &str)
    ensures
        final(out)@ == old(out)@ + jstr(s@),
{
    out.push('"');
    push_escaped(out, s);
    out.push('"');
    proof {
        assert(out@ =~= old(out)@ + jstr(s@));
    }
}

#[verifier::rlimit(100)]
#[verifier::spinoff_prover]
fn push_task_json(out: &mut Vec<char>, t: &Task)
    requires
        t@.wf(),
    ensures
        final(out)@ == old(out)@ + json_of_task(t@),
{
    out.push('{');
    push_jstr(out, "name");
    out.push(':');
    push_jstr(out, t.name.as_str());
    out.push(',');
    push_jstr(out, "description");
    out.push(':');
    push_jstr(out, t.description.as_str());
    out.push(',');
    push_jstr(out, "priority");
    out.push(':');
    let label = t.priority.to_string();
    push_jstr(out, label.as_str());
    out.push(',');
    push_jstr(out, "add_time");
    out.push(':');
    let iso = t.add_time.iso_chars();
    let iso_s = chars_to_string(&iso);
    push_jstr(out, iso_s.as_str());
    out.push('}');
    proof {
        assert(out@ =~= old(out)@ + json_of_task(t@));
    }
}

/// Serializes a task vector to its complete file content.
pub fn tasks_to_json(tasks: &Vec<Task>) -> (r: String)
    requires
        forall|i: int| 0 <= i < tasks@.len() ==> (#[trigger] tasks@[i])@.wf(),
    ensures
        r@ == json_of(views_of(tasks@)),
{
    let ghost tvs = views_of(tasks@);
    let mut out: Vec<char> = Vec::new();
    append_str(&mut out, "[");
    let n = tasks.len();
    let mut i: usize = 0;
    while i < n
        invariant
            n == tasks@.len(),
            i <= n,
            tvs == views_of(tasks@),
            forall|k: int| 0 <= k < tasks@.len() ==> (#[trigger] tasks@[k])@.wf(),
            out@ == "["@ + json_items(tvs.subrange(0, i as int)),
        decreases n - i,
    {
        if i > 0 {
            append_str(&mut out, ",");
        }
        push_task_json(&mut out, &tasks[i]);
        proof {
            lemma_items_snoc(tvs.subrange(0, i as int), tvs[i as int]);
            assert(tvs.subrange(0, i + 1 as int) =~= tvs.subrange(0, i as int).push(
                tvs[i as int],
            ));
            assert(out@ =~= "["@ + json_items(tvs.subrange(0, i + 1 as int)));
        }
        i = i + 1;
    }
    append_str(&mut out, "]");
    proof {
        assert(tvs.subrange(0, n as int) =~= tvs);
        assert(out@ =~= json_of(tvs));
    }
    chars_to_string(&out)
}

// ---------------------------------------------------------------------------
// Reading the serialized form back.
// ---------------------------------------------------------------------------

/// JSON insignificant whitespace.
pub open spec fn is_ws(c: char) -> bool {
    c == ' ' || c == '\t' || c == '\n' || c == '\r'
}

/// First position at or after `i` holding no whitespace.
pub open spec fn skip_ws(s: Seq<char>, i: int) -> int
    decreases s.len() - i,
    when 0 <= i <= s.len()
{
    if i < s.len() && is_ws(s[i]) {
        skip_ws(s, i + 1)
    } else {
        i
    }
}

/// The character with this code point (meaningful for valid scalars).
pub open spec fn code_char(v: int) -> char {
    (v as u32) as char
}

/// Prepends `c` to the content of a partial string parse.
pub open spec fn cons_char(c: char, r: Option<(Seq<char>, int)>) -> Option<(Seq<char>, int)> {
    match r {
        Some((x, j)) => Some((seq![c] + x, j)),
        None => None,
    }
}

/// Scans a JSON string body starting at `i` (just after the opening quote):
/// the decoded content and the position after the closing quote, or `None`
/// on an unterminated string, a bad escape, or a raw control character.
/// `\uXXXX` escapes cover the basic plane; a surrogate pair spells one
/// character beyond it, and a lone surrogate is rejected.
pub open spec fn parse_sbody(s: Seq<char>, i: int) -> Option<(Seq<char>, int)>
    decreases s.len() - i,
    when 0 <= i <= s.len()
{
    if i >= s.len() {
        None
    } else if s[i] == '"' {
        Some((Seq::empty(), i + 1))
    } else if s[i] == '\\' {
        if i + 1 < s.len() {
            let e = s[i + 1];
            if e == '"' || e == '\\' || e == '/' {
                cons_char(e, parse_sbody(s, i + 2))
            } else if e == 'n' {
                cons_char('\n', parse_sbody(s, i + 2))
            } else if e == 't' {
                cons_char('\t', parse_sbody(s, i + 2))
            } else if e == 'r' {
                cons_char('\r', parse_sbody(s, i + 2))
            } else if e == 'b' {
                cons_char('\u{0008}', parse_sbody(s, i + 2))
            } else if e == 'f' {
                cons_char('\u{000C}', parse_sbody(s, i + 2))
            } else if e == 'u' {
                if i + 5 < s.len() {
                    let h0 = hex_val_spec(s[i + 2]);
                    let h1 = hex_val_spec(s[i + 3]);
                    let h2 = hex_val_spec(s[i + 4]);
                    let h3 = hex_val_spec(s[i + 5]);
                    if h0 < 0 || h1 < 0 || h2 < 0 || h3 < 0 {
                        None
                    } else {
                        let u = ((h0 * 16 + h1) * 16 + h2) * 16 + h3;
                        if 0xD800 <= u < 0xDC00 {
                            if i + 11 < s.len() && s[i + 6] == '\\' && s[i + 7] == 'u' {
                                let g0 = hex_val_spec(s[i + 8]);
                                let g1 = hex_val_spec(s[i + 9]);
                                let g2 = hex_val_spec(s[i + 10]);
                                let g3 = hex_val_spec(s[i + 11]);
                                if g0 < 0 || g1 < 0 || g2 < 0 || g3 < 0 {
                                    None
                                } else {
                                    let lo = ((g0 * 16 + g1) * 16 + g2) * 16 + g3;
                                    if 0xDC00 <= lo < 0xE000 {
                                        cons_char(
                                            code_char(
                                                0x10000 + (u - 0xD800) * 0x400 + (lo - 0xDC00),
                                            ),
                                            parse_sbody(s, i + 12),
                                        )
                                    } else {
                                        None
                                    }
                                }
                            } else {
                                None
                            }
                        } else if 0xDC00 <= u < 0xE000 {
                            None
                        } else {
                            cons_char(code_char(u), parse_sbody(s, i + 6))
                        }
                    }
                } else {
                    None
                }
            } else {
                None
            }
        } else {
            None
        }
    } else if (s[i] as u32) < 32 {
        None
    } else {
        cons_char(s[i], parse_sbody(s, i + 1))
    }
}

/// Scans a quoted JSON string starting at its opening quote.
pub open spec fn parse_jstring(s: Seq<char>, i: int) -> Option<(Seq<char>, int)> {
    if 0 <= i && i < s.len() && s[i] == '"' {
        parse_sbody(s, i + 1)
    } else {
        None
    }
}

/// Scans the members of one task object, starting just after `{` or after a
/// member-separating comma. The four slots carry the members already seen:
/// each of the four may appear once, in any order, and all must be present
/// when the closing `}` comes.
pub open spec fn parse_members(
    s: Seq<char>,
    i: int,
    nm: Option<Seq<char>>,
    ds: Option<Seq<char>>,
    pr: Option<Priority>,
    tm: Option<crate::time::Timestamp>,
) -> Option<(TaskView, int)>
    decreases s.len() - i, 1int,
    when 0 <= i <= s.len()
{
    let i1 = skip_ws(s, i);
    match parse_jstring(s, i1) {
        None => None,
        Some((key, j1)) => {
            if 0 <= j1 <= s.len() {
                let j2 = skip_ws(s, j1);
                if 0 <= j2 && j2 < s.len() && s[j2] == ':' {
                    let j3 = skip_ws(s, j2 + 1);
                    match parse_jstring(s, j3) {
                        None => None,
                        Some((value, j4)) => {
                            if key == "name"@ && nm is None {
                                parse_after_member(s, i, j4, Some(value), ds, pr, tm)
                            } else if key == "description"@ && ds is None {
                                parse_after_member(s, i, j4, nm, Some(value), pr, tm)
                            } else if key == "priority"@ && pr is None {
                                match crate::priority::priority_of_label(value) {
                                    Some(p) => parse_after_member(s, i, j4, nm, ds, Some(p), tm),
                                    None => None,
                                }
                            } else if key == "add_time"@ && tm is None {
                                match crate::time::parse_iso_spec(value) {
                                    Some(t) => parse_after_member(s, i, j4, nm, ds, pr, Some(t)),
                                    None => None,
                                }
                            } else {
                                None
                            }
                        },
                    }
                } else {
                    None
                }
            } else {
                None
            }
        },
    }
}

/// After one member: a comma continues with the next member; a closing
/// brace ends the object if all four members have been seen.
pub open spec fn parse_after_member(
    s: Seq<char>,
    i: int,
    j: int,
    nm: Option<Seq<char>>,
    ds: Option<Seq<char>>,
    pr: Option<Priority>,
    tm: Option<crate::time::Timestamp>,
) -> Option<(TaskView, int)>
    decreases s.len() - i, 0int,
    when 0 <= i <= s.len()
{
    if 0 <= j <= s.len() {
        let j5 = skip_ws(s, j);
        if 0 <= j5 && j5 < s.len() && s[j5] == ',' {
            if i < j5 {
                parse_members(s, j5 + 1, nm, ds, pr, tm)
            } else {
                None
            }
        } else if 0 <= j5 && j5 < s.len() && s[j5] == '}' {
            match (nm, ds, pr, tm) {
                (Some(name), Some(description), Some(priority), Some(add_time)) => Some(
                    ((TaskView { name, description, priority, add_time }), j5 + 1),
                ),
                _ => None,
            }
        } else {
            None
        }
    } else {
        None
    }
}

/// Scans one task object starting at its `{`.
pub open spec fn parse_task_at(s: Seq<char>, i: int) -> Option<(TaskView, int)> {
    if 0 <= i && i < s.len() && s[i] == '{' {
        parse_members(s, i + 1, None, None, None, None)
    } else {
        None
    }
}

/// Scans one or more comma-separated task objects followed by the closing
/// `]` of the array.
pub open spec fn parse_items(s: Seq<char>, i: int) -> Option<(Seq<TaskView>, int)>
    decreases s.len() - i,
    when 0 <= i <= s.len()
{
    let i1 = skip_ws(s, i);
    match parse_task_at(s, i1) {
        None => None,
        Some((tv, j)) => {
            if 0 <= j <= s.len() {
                let j1 = skip_ws(s, j);
                if 0 <= j1 && j1 < s.len() && s[j1] == ',' {
                    if i < j1 {
                        match parse_items(s, j1 + 1) {
                            Some((rest, k)) => Some((seq![tv] + rest, k)),
                            None => None,
                        }
                    } else {
                        None
                    }
                } else if 0 <= j1 && j1 < s.len() && s[j1] == ']' {
                    Some((seq![tv], j1 + 1))
                } else {
                    None
                }
            } else {
                None
            }
        },
    }
}

/// Reads a whole file content as a task array; `None` when the text is not
/// one well-formed JSON array of task objects (whitespace between tokens is
/// accepted anywhere).
pub open spec fn parse_array(s: Seq<char>) -> Option<Seq<TaskView>> {
    let i0 = skip_ws(s, 0);
    if 0 <= i0 && i0 < s.len() && s[i0] == '[' {
        let i1 = skip_ws(s, i0 + 1);
        if 0 <= i1 && i1 < s.len() && s[i1] == ']' {
            if skip_ws(s, i1 + 1) == s.len() {
                Some(Seq::empty())
            } else {
                None
            }
        } else {
            match parse_items(s, i0 + 1) {
                Some((tvs, j)) => if 0 <= j <= s.len() && skip_ws(s, j) == s.len() {
                    Some(tvs)
                } else {
                    None
                },
                None => None,
            }
        }
    } else {
        None
    }
}

// ---------------------------------------------------------------------------
// Reading back what was written gives the original sequence.
// ---------------------------------------------------------------------------

proof fn lemma_window_index(s: Seq<char>, i: int, w: Seq<char>, k: int)
    requires
        0 <= i,
        i + w.len() <= s.len(),
        s.subrange(i, i + w.len() as int) == w,
        0 <= k < w.len(),
    ensures
        s[i + k] == w[k],
{
    assert(s.subrange(i, i + w.len() as int)[k] == s[i + k]);
}

proof fn lemma_subwindow(s: Seq<char>, i: int, w: Seq<char>, a: int, b: int)
    requires
        0 <= i,
        i + w.len() <= s.len(),
        s.subrange(i, i + w.len() as int) == w,
        0 <= a <= b <= w.len(),
    ensures
        s.subrange(i + a, i + b) == w.subrange(a, b),
{
    assert(s.subrange(i + a, i + b) =~= w.subrange(a, b));
}

proof fn lemma_skip_ws_here(s: Seq<char>, i: int)
    requires
        0 <= i <= s.len(),
        i < s.len() ==> !is_ws(s[i]),
    ensures
        skip_ws(s, i) == i,
{
}

proof fn lemma_sbody_of_escape(x: Seq<char>, s: Seq<char>, i: int)
    requires
        0 <= i,
        i + escape_seq(x).len() + 1 <= s.len(),
        s.subrange(i, i + escape_seq(x).len() as int) == escape_seq(x),
        s[i + escape_seq(x).len()] == '"',
    ensures
        parse_sbody(s, i) == Some((x, i + escape_seq(x).len() + 1)),
    decreases x.len(),
{
    let w = escape_seq(x);
    if x.len() == 0 {
        assert(w.len() == 0);
        assert(s[i] == '"');
    } else {
        let c = x[0];
        let e = escaped_char(c);
        let x1 = x.subrange(1, x.len() as int);
        let w1 = escape_seq(x1);
        assert(w == e + w1);
        let m = i + e.len();
        assert(s.subrange(m, m + w1.len() as int) =~= w1) by {
            assert forall|k: int| 0 <= k < w1.len() implies s.subrange(
                m,
                m + w1.len() as int,
            )[k] == w1[k] by {
                lemma_window_index(s, i, w, e.len() + k);
                assert(w[e.len() + k] == w1[k]);
            }
        }
        assert(s[m + w1.len()] == '"');
        lemma_sbody_of_escape(x1, s, m);
        if c == '"' {
            lemma_window_index(s, i, w, 0);
            lemma_window_index(s, i, w, 1);
            assert(s[i] == '\\' && s[i + 1] == '"');
            assert(parse_sbody(s, i) == cons_char('"', parse_sbody(s, i + 2)));
        } else if c == '\\' {
            lemma_window_index(s, i, w, 0);
            lemma_window_index(s, i, w, 1);
            assert(s[i] == '\\' && s[i + 1] == '\\');
            assert(parse_sbody(s, i) == cons_char('\\', parse_sbody(s, i + 2)));
        } else if (c as u32) < 32 {
            let cv = c as u32;
            lemma_window_index(s, i, w, 0);
            lemma_window_index(s, i, w, 1);
            lemma_window_index(s, i, w, 2);
            lemma_window_index(s, i, w, 3);
            lemma_window_index(s, i, w, 4);
            lemma_window_index(s, i, w, 5);
            assert(s[i] == '\\' && s[i + 1] == 'u' && s[i + 2] == '0' && s[i + 3] == '0');
            assert(s[i + 4] == digit_char_spec((cv / 16) as int));
            assert(s[i + 5] == digit_char_spec((cv % 16) as int));
            lemma_digit_char_val((cv / 16) as int);
            lemma_digit_char_val((cv % 16) as int);
            assert(hex_val_spec('0') == 0);
            let u = ((hex_val_spec(s[i + 2]) * 16 + hex_val_spec(s[i + 3])) * 16 + hex_val_spec(
                s[i + 4],
            )) * 16 + hex_val_spec(s[i + 5]);
            assert(u == (cv / 16) * 16 + cv % 16);
            assert(u == cv);
            vstd::utf8::char_u32_cast(c, cv);
            assert(code_char(u) == c);
            assert(parse_sbody(s, i) == cons_char(c, parse_sbody(s, i + 6)));
        } else {
            lemma_window_index(s, i, w, 0);
            assert(s[i] == c);
            assert(parse_sbody(s, i) == cons_char(c, parse_sbody(s, i + 1)));
        }
        assert(seq![c] + x1 =~= x);
    }
}

proof fn lemma_jstring_of_jstr(x: Seq<char>, s: Seq<char>, i: int)
    requires
        0 <= i,
        i + jstr(x).len() <= s.len(),
        s.subrange(i, i + jstr(x).len() as int) == jstr(x),
    ensures
        parse_jstring(s, i) == Some((x, i + jstr(x).len())),
{
    let w = jstr(x);
    let e = escape_seq(x);
    lemma_window_index(s, i, w, 0);
    assert(s[i] == '"');
    assert(s.subrange(i + 1, i + 1 + e.len() as int) =~= e) by {
        assert forall|k: int| 0 <= k < e.len() implies s.subrange(
            i + 1,
            i + 1 + e.len() as int,
        )[k] == e[k] by {
            lemma_window_index(s, i, w, 1 + k);
            assert(w[1 + k] == e[k]);
        }
    }
    lemma_window_index(s, i, w, 1 + e.len() as int);
    assert(s[i + 1 + e.len()] == '"');
    lemma_sbody_of_escape(x, s, i + 1);
}

proof fn lemma_member_step(s: Seq<char>, w: Seq<char>, i: int, a: int, key: Seq<char>, value: Seq<
    char,
>)
    requires
        0 <= i,
        i + w.len() <= s.len(),
        s.subrange(i, i + w.len() as int) == w,
        0 <= a,
        a + jstr(key).len() + 1 + jstr(value).len() <= w.len(),
        w.subrange(a, a + jstr(key).len() as int) == jstr(key),
        w[a + jstr(key).len()] == ':',
        w.subrange(
            a + jstr(key).len() + 1,
            a + jstr(key).len() + 1 + jstr(value).len() as int,
        ) == jstr(value),
    ensures
        skip_ws(s, i + a) == i + a,
        parse_jstring(s, i + a) == Some((key, i + a + jstr(key).len())),
        skip_ws(s, i + a + jstr(key).len()) == i + a + jstr(key).len(),
        s[i + a + jstr(key).len()] == ':',
        skip_ws(s, i + a + jstr(key).len() + 1) == i + a + jstr(key).len() + 1,
        parse_jstring(s, i + a + jstr(key).len() + 1) == Some(
            (value, i + a + jstr(key).len() + 1 + jstr(value).len()),
        ),
{
    let kl = jstr(key).len() as int;
    let vl = jstr(value).len() as int;
    lemma_subwindow(s, i, w, a, a + kl);
    lemma_jstring_of_jstr(key, s, i + a);
    lemma_window_index(s, i, w, a);
    assert(s[i + a] == jstr(key)[0]);
    assert(jstr(key)[0] == '"');
    lemma_skip_ws_here(s, i + a);
    lemma_window_index(s, i, w, a + kl);
    assert(s[i + a + kl] == ':');
    lemma_skip_ws_here(s, i + a + kl);
    lemma_subwindow(s, i, w, a + kl + 1, a + kl + 1 + vl);
    lemma_jstring_of_jstr(value, s, i + a + kl + 1);
    lemma_window_index(s, i, w, a + kl + 1);
    assert(s[i + a + kl + 1] == jstr(value)[0]);
    assert(jstr(value)[0] == '"');
    lemma_skip_ws_here(s, i + a + kl + 1);
}

/// Reading one written task object back gives the task it was made from.
#[verifier::rlimit(100)]
#[verifier::spinoff_prover]
proof fn lemma_task_round_trip(tv: TaskView, s: Seq<char>, i: int)
    requires
        tv.wf(),
        0 <= i,
        i + json_of_task(tv).len() <= s.len(),
        s.subrange(i, i + json_of_task(tv).len() as int) == json_of_task(tv),
    ensures
        parse_task_at(s, i) == Some((tv, i + json_of_task(tv).len())),
        json_of_task(tv).len() > 0,
{
    let w = json_of_task(tv);
    let k1 = jstr("name"@);
    let p1 = jstr(tv.name);
    let k2 = jstr("description"@);
    let p2 = jstr(tv.description);
    let k3 = jstr("priority"@);
    let p3 = jstr(tv.priority.label());
    let k4 = jstr("add_time"@);
    let p4 = jstr(tv.add_time.iso_of());
    let a1 = 1int;
    let b1 = a1 + k1.len();
    let c1 = b1 + 1;
    let a2 = c1 + p1.len();
    let a2n = a2 + 1;
    let b2 = a2n + k2.len();
    let c2 = b2 + 1;
    let a3 = c2 + p2.len();
    let a3n = a3 + 1;
    let b3 = a3n + k3.len();
    let c3 = b3 + 1;
    let a4 = c3 + p3.len();
    let a4n = a4 + 1;
    let b4 = a4n + k4.len();
    let c4 = b4 + 1;
    let e4 = c4 + p4.len();
    assert(w.len() == e4 + 1);
    assert(w.subrange(a1, b1) =~= k1);
    assert(w.subrange(c1, a2) =~= p1);
    assert(w.subrange(a2n, b2) =~= k2);
    assert(w.subrange(c2, a3) =~= p2);
    assert(w.subrange(a3n, b3) =~= k3);
    assert(w.subrange(c3, a4) =~= p3);
    assert(w.subrange(a4n, b4) =~= k4);
    assert(w.subrange(c4, e4) =~= p4);
    assert(w[0] == '{');
    assert(w[b1] == ':' && w[b2] == ':' && w[b3] == ':' && w[b4] == ':');
    assert(w[a2] == ',' && w[a3] == ',' && w[a4] == ',');
    assert(w[e4] == '}');
    lemma_window_index(s, i, w, 0);
    lemma_member_step(s, w, i, a1, "name"@, tv.name);
    lemma_member_step(s, w, i, a2n, "description"@, tv.description);
    lemma_member_step(s, w, i, a3n, "priority"@, tv.priority.label());
    lemma_member_step(s, w, i, a4n, "add_time"@, tv.add_time.iso_of());
    crate::priority::lemma_priority_label_round_trip(tv.priority);
    crate::time::lemma_iso_round_trip(tv.add_time);
    reveal_strlit("name");
    reveal_strlit("description");
    reveal_strlit("priority");
    reveal_strlit("add_time");
    assert("name"@.len() == 4 && "description"@.len() == 11 && "priority"@.len() == 8
        && "add_time"@.len() == 8);
    assert("add_time"@[0] == 'a' && "priority"@[0] == 'p');
    assert("description"@ != "name"@ && "priority"@ != "name"@ && "priority"@ != "description"@);
    assert("add_time"@ != "name"@ && "add_time"@ != "description"@);
    assert("add_time"@ != "priority"@);
    lemma_window_index(s, i, w, a2);
    lemma_skip_ws_here(s, i + a2);
    lemma_window_index(s, i, w, a3);
    lemma_skip_ws_here(s, i + a3);
    lemma_window_index(s, i, w, a4);
    lemma_skip_ws_here(s, i + a4);
    lemma_window_index(s, i, w, e4);
    lemma_skip_ws_here(s, i + e4);
    assert(s[i] == '{');
    assert(parse_members(s, i + 1, None, None, None, None) == parse_after_member(
        s,
        i + 1,
        i + a2,
        Some(tv.name),
        None,
        None,
        None,
    ));
    assert(parse_after_member(s, i + 1, i + a2, Some(tv.name), None, None, None) == parse_members(
        s,
        i + a2n,
        Some(tv.name),
        None,
        None,
        None,
    ));
    assert(parse_members(s, i + a2n, Some(tv.name), None, None, None) == parse_after_member(
        s,
        i + a2n,
        i + a3,
        Some(tv.name),
        Some(tv.description),
        None,
        None,
    ));
    assert(parse_after_member(s, i + a2n, i + a3, Some(tv.name), Some(tv.description), None, None)
        == parse_members(s, i + a3n, Some(tv.name), Some(tv.description), None, None));
    assert(parse_members(s, i + a3n, Some(tv.name), Some(tv.description), None, None)
        == parse_after_member(
        s,
        i + a3n,
        i + a4,
        Some(tv.name),
        Some(tv.description),
        Some(tv.priority),
        None,
    ));
    assert(parse_after_member(
        s,
        i + a3n,
        i + a4,
        Some(tv.name),
        Some(tv.description),
        Some(tv.priority),
        None,
    ) == parse_members(s, i + a4n, Some(tv.name), Some(tv.description), Some(tv.priority), None));
    assert(parse_members(s, i + a4n, Some(tv.name), Some(tv.description), Some(tv.priority), None)
        == parse_after_member(
        s,
        i + a4n,
        i + e4,
        Some(tv.name),
        Some(tv.description),
        Some(tv.priority),
        Some(tv.add_time),
    ));
    assert(parse_after_member(
        s,
        i + a4n,
        i + e4,
        Some(tv.name),
        Some(tv.description),
        Some(tv.priority),
        Some(tv.add_time),
    ) == Some((tv, i + e4 + 1)));
    assert(parse_task_at(s, i) == Some((tv, i + w.len() as int)));
}

#[verifier::rlimit(100)]
proof fn lemma_items_round_trip(tvs: Seq<TaskView>, s: Seq<char>, i: int)
    requires
        tvs.len() >= 1,
        forall|k: int| 0 <= k < tvs.len() ==> (#[trigger] tvs[k]).wf(),
        0 <= i,
        i + json_items(tvs).len() + 1 <= s.len(),
        s.subrange(i, i + json_items(tvs).len() as int) == json_items(tvs),
        s[i + json_items(tvs).len()] == ']',
    ensures
        parse_items(s, i) == Some((tvs, i + json_items(tvs).len() + 1)),
    decreases tvs.len(),
{
    let w = json_items(tvs);
    let t0 = tvs[0];
    let wt = json_of_task(t0);
    lemma_window_index(s, i, w, 0);
    assert(w[0] == '{');
    lemma_skip_ws_here(s, i);
    if tvs.len() == 1 {
        assert(w == wt);
        lemma_task_round_trip(t0, s, i);
        let j = i + wt.len() as int;
        assert(s[j] == ']');
        lemma_skip_ws_here(s, j);
        assert(parse_items(s, i) == Some((seq![t0], j + 1)));
        assert(seq![t0] =~= tvs);
    } else {
        let rest = tvs.subrange(1, tvs.len() as int);
        let wr = json_items(rest);
        assert(w == wt + ","@ + wr);
        reveal_strlit(",");
        assert(","@.len() == 1);
        assert(w.len() == wt.len() + 1 + wr.len());
        lemma_subwindow(s, i, w, 0, wt.len() as int);
        assert(w.subrange(0, wt.len() as int) =~= wt);
        lemma_task_round_trip(t0, s, i);
        let j = i + wt.len() as int;
        lemma_window_index(s, i, w, wt.len() as int);
        assert(w[wt.len() as int] == ',');
        assert(s[j] == ',');
        lemma_skip_ws_here(s, j);
        assert(s.subrange(j + 1, j + 1 + wr.len() as int) =~= wr) by {
            assert forall|k: int| 0 <= k < wr.len() implies s.subrange(
                j + 1,
                j + 1 + wr.len() as int,
            )[k] == wr[k] by {
                lemma_window_index(s, i, w, wt.len() + 1 + k);
                assert(w[wt.len() + 1 + k] == wr[k]);
            }
        }
        assert(s[j + 1 + wr.len()] == ']');
        lemma_items_round_trip(rest, s, j + 1);
        assert(parse_items(s, i) == Some((seq![t0] + rest, i + w.len() + 1)));
        assert(seq![t0] + rest =~= tvs);
    }
}

/// Round trip: reading a written task sequence back yields exactly the
/// original sequence — same order, same field values — for any number of
/// well-formed tasks.
pub proof fn lemma_json_round_trip(tvs: Seq<TaskView>)
    requires
        forall|k: int| 0 <= k < tvs.len() ==> (#[trigger] tvs[k]).wf(),
    ensures
        parse_array(json_of(tvs)) == Some(tvs),
{
    let s = json_of(tvs);
    let w = json_items(tvs);
    reveal_strlit("[");
    reveal_strlit("]");
    assert("["@.len() == 1 && "]"@.len() == 1);
    assert(s.len() == 1 + w.len() + 1);
    assert(s[0] == '[');
    lemma_skip_ws_here(s, 0);
    if tvs.len() == 0 {
        assert(w.len() == 0);
        assert(s.len() == 2 && s[1] == ']');
        lemma_skip_ws_here(s, 1);
        lemma_skip_ws_here(s, 2);
        assert(parse_array(s) == Some(Seq::<TaskView>::empty()));
        assert(Seq::<TaskView>::empty() =~= tvs);
    } else {
        let wt = json_of_task(tvs[0]);
        assert(w[0] == wt[0]);
        assert(wt[0] == '{');
        assert(s[1] == '{');
        lemma_skip_ws_here(s, 1);
        assert(s.subrange(1, 1 + w.len() as int) =~= w);
        assert(s[1 + w.len() as int] == ']');
        lemma_items_round_trip(tvs, s, 1);
        assert(parse_items(s, 1) == Some((tvs, s.len() as int)));
        lemma_skip_ws_here(s, s.len() as int);
        assert(parse_array(s) == Some(tvs));
    }
}

// ---------------------------------------------------------------------------
// The executable reader, mirroring the functions above.
// ---------------------------------------------------------------------------

fn skip_ws_exec(v: &Vec<char>, i: usize) -> (r: usize)
    requires
        i <= v@.len(),
    ensures
        r as int == skip_ws(v@, i as int),
        i <= r <= v@.len(),
{
    let n = v.len();
    let mut j = i;
    while j < n && (v[j] == ' ' || v[j] == '\t' || v[j] == '\n' || v[j] == '\r')
        invariant
            i <= j <= n,
            n == v@.len(),
            skip_ws(v@, i as int) == skip_ws(v@, j as int),
        decreases n - j,
    {
        proof {
            assert(skip_ws(v@, j as int) == skip_ws(v@, j + 1));
        }
        j = j + 1;
    }
    proof {
        assert(skip_ws(v@, j as int) == j as int);
    }
    j
}

fn parse_sbody_exec(v: &Vec<char>, i: usize) -> (r: Option<(Vec<char>, usize)>)
    requires
        i <= v@.len(),
    ensures
        match parse_sbody(v@, i as int) {
            Some((x, j)) => r matches Some(p) && p.0@ == x && p.1 as int == j && i < j
                <= v@.len(),
            None => r is None,
        },
    decreases v@.len() - i,
{
    let n = v.len();
    if i >= n {
        return None;
    }
    let c = v[i];
    if c == '"' {
        return Some((Vec::new(), i + 1));
    }
    if c == '\\' {
        if i + 1 >= n {
            return None;
        }
        let e = v[i + 1];
        let dec: Option<(char, usize)> = if e == '"' || e == '\\' || e == '/' {
            Some((e, 2))
        } else if e == 'n' {
            Some(('\n', 2))
        } else if e == 't' {
            Some(('\t', 2))
        } else if e == 'r' {
            Some(('\r', 2))
        } else if e == 'b' {
            Some(('\u{0008}', 2))
        } else if e == 'f' {
            Some(('\u{000C}', 2))
        } else if e == 'u' {
            if n - i > 5 {
                let h0 = hex_val(v[i + 2]);
                let h1 = hex_val(v[i + 3]);
                let h2 = hex_val(v[i + 4]);
                let h3 = hex_val(v[i + 5]);
                if h0 < 0 || h1 < 0 || h2 < 0 || h3 < 0 {
                    None
                } else {
                    let u: i32 = ((h0 as i32 * 16 + h1 as i32) * 16 + h2 as i32) * 16
                        + h3 as i32;
                    if 0xD800 <= u && u < 0xDC00 {
                        if n - i > 11 && v[i + 6] == '\\' && v[i + 7] == 'u' {
                            let g0 = hex_val(v[i + 8]);
                            let g1 = hex_val(v[i + 9]);
                            let g2 = hex_val(v[i + 10]);
                            let g3 = hex_val(v[i + 11]);
                            if g0 < 0 || g1 < 0 || g2 < 0 || g3 < 0 {
                                None
                            } else {
                                let lo: i32 = ((g0 as i32 * 16 + g1 as i32) * 16 + g2 as i32)
                                    * 16 + g3 as i32;
                                if 0xDC00 <= lo && lo < 0xE000 {
                                    let code: i32 = 0x10000 + (u - 0xD800) * 0x400 + (lo
                                        - 0xDC00);
                                    match char_from_code(code as u32) {
                                        Some(dc) => {
                                            proof {
                                                vstd::utf8::char_u32_cast(dc, code as u32);
                                            }
                                            Some((dc, 12))
                                        },
                                        None => {
                                            proof {
                                                assert(false);
                                            }
                                            None
                                        },
                                    }
                                } else {
                                    None
                                }
                            }
                        } else {
                            None
                        }
                    } else if 0xDC00 <= u && u < 0xE000 {
                        None
                    } else {
                        match char_from_code(u as u32) {
                            Some(dc) => {
                                proof {
                                    vstd::utf8::char_u32_cast(dc, u as u32);
                                }
                                Some((dc, 6))
                            },
                            None => {
                                proof {
                                    assert(false);
                                }
                                None
                            },
                        }
                    }
                }
            } else {
                None
            }
        } else {
            None
        };
        match dec {
            None => None,
            Some((dc, w)) => {
                match parse_sbody_exec(v, i + w) {
                    None => None,
                    Some((xs, j)) => {
                        let mut xs2 = xs;
                        let ghost xs0 = xs2@;
                        xs2.insert(0, dc);
                        proof {
                            assert(xs2@ =~= seq![dc] + xs0);
                        }
                        Some((xs2, j))
                    },
                }
            },
        }
    } else {
        let cv = c as u32;
        if cv < 32 {
            None
        } else {
            match parse_sbody_exec(v, i + 1) {
                None => None,
                Some((xs, j)) => {
                    let mut xs2 = xs;
                    let ghost xs0 = xs2@;
                    xs2.insert(0, c);
                    proof {
                        assert(xs2@ =~= seq![c] + xs0);
                    }
                    Some((xs2, j))
                },
            }
        }
    }
}

fn parse_jstring_exec(v: &Vec<char>, i: usize) -> (r: Option<(Vec<char>, usize)>)
    ensures
        match parse_jstring(v@, i as int) {
            Some((x, j)) => r matches Some(p) && p.0@ == x && p.1 as int == j && i < j
                <= v@.len(),
            None => r is None,
        },
{
    if i < v.len() {
        let c = v[i];
        if c == '"' {
            return parse_sbody_exec(v, i + 1);
        }
    }
    None
}

/// The character content of an optional string.
pub open spec fn opt_view(o: Option<String>) -> Option<Seq<char>> {
    match o {
        Some(s) => Some(s@),
        None => None,
    }
}

fn parse_members_exec(
    v: &Vec<char>,
    i: usize,
    nm: Option<String>,
    ds: Option<String>,
    pr: Option<Priority>,
    tm: Option<crate::time::Timestamp>,
) -> (r: Option<(Task, usize)>)
    requires
        i <= v@.len(),
        tm matches Some(t) ==> t.wf(),
    ensures
        match parse_members(v@, i as int, opt_view(nm), opt_view(ds), pr, tm) {
            Some((tv, j)) => r matches Some(p) && p.0@ == tv && p.1 as int == j && tv.wf() && p.1
                <= v@.len(),
            None => r is None,
        },
    decreases v@.len() - i,
{
    let i1 = skip_ws_exec(v, i);
    let (key_chars, j1) = match parse_jstring_exec(v, i1) {
        Some(p) => p,
        None => {
            return None;
        },
    };
    let j2 = skip_ws_exec(v, j1);
    if !(j2 < v.len()) {
        return None;
    }
    if v[j2] != ':' {
        return None;
    }
    let j3 = skip_ws_exec(v, j2 + 1);
    let (val_chars, j4) = match parse_jstring_exec(v, j3) {
        Some(p) => p,
        None => {
            return None;
        },
    };
    let key = chars_to_string(&key_chars);
    proof {
        broadcast use vstd::string::group_string_axioms;

        reveal_strlit("name");
        reveal_strlit("description");
        reveal_strlit("priority");
        reveal_strlit("add_time");
        assert("name"@.len() == 4 && "description"@.len() == 11 && "priority"@.len() == 8
            && "add_time"@.len() == 8);
        assert("name"@ != "description"@ && "name"@ != "priority"@ && "name"@ != "add_time"@);
        assert("description"@ != "priority"@ && "description"@ != "add_time"@);
        assert("priority"@[0] == 'p' && "add_time"@[0] == 'a');
        assert("priority"@ != "add_time"@);
    }
    let (nm2, ds2, pr2, tm2): (
        Option<String>,
        Option<String>,
        Option<Priority>,
        Option<crate::time::Timestamp>,
    ) = if str_eq(key.as_str(), "name") {
        if nm.is_some() {
            return None;
        }
        (Some(chars_to_string(&val_chars)), ds, pr, tm)
    } else if str_eq(key.as_str(), "description") {
        if ds.is_some() {
            return None;
        }
        (nm, Some(chars_to_string(&val_chars)), pr, tm)
    } else if str_eq(key.as_str(), "priority") {
        if pr.is_some() {
            return None;
        }
        let vs = chars_to_string(&val_chars);
        let p = if str_eq(vs.as_str(), "Low") {
            Priority::Low
        } else if str_eq(vs.as_str(), "Medium") {
            Priority::Medium
        } else if str_eq(vs.as_str(), "High") {
            Priority::High
        } else {
            return None;
        };
        (nm, ds, Some(p), tm)
    } else if str_eq(key.as_str(), "add_time") {
        if tm.is_some() {
            return None;
        }
        let t = match parse_iso(&val_chars) {
            Some(t) => t,
            None => {
                return None;
            },
        };
        (nm, ds, pr, Some(t))
    } else {
        return None;
    };
    let j5 = skip_ws_exec(v, j4);
    if j5 < v.len() {
        let c5 = v[j5];
        if c5 == ',' {
            if i < j5 {
                parse_members_exec(v, j5 + 1, nm2, ds2, pr2, tm2)
            } else {
                None
            }
        } else if c5 == '}' {
            match (nm2, ds2, pr2, tm2) {
                (Some(name), Some(description), Some(priority), Some(add_time)) => Some(
                    (Task { name, description, priority, add_time }, j5 + 1),
                ),
                _ => None,
            }
        } else {
            None
        }
    } else {
        None
    }
}

fn parse_task_exec(v: &Vec<char>, i: usize) -> (r: Option<(Task, usize)>)
    requires
        i <= v@.len(),
    ensures
        match parse_task_at(v@, i as int) {
            Some((tv, j)) => r matches Some(p) && p.0@ == tv && p.1 as int == j && tv.wf() && p.1
                <= v@.len(),
            None => r is None,
        },
{
    if i < v.len() {
        let c = v[i];
        if c == '{' {
            return parse_members_exec(v, i + 1, None, None, None, None);
        }
    }
    None
}

fn parse_items_exec(v: &Vec<char>, i: usize) -> (r: Option<(Vec<Task>, usize)>)
    requires
        i <= v@.len(),
    ensures
        match parse_items(v@, i as int) {
            Some((tvs, j)) => r matches Some(p) && views_of(p.0@) == tvs && p.1 as int == j && p.1
                <= v@.len() && (forall|k: int|
                0 <= k < p.0@.len() ==> (#[trigger] p.0@[k])@.wf()),
            None => r is None,
        },
    decreases v@.len() - i,
{
    let i1 = skip_ws_exec(v, i);
    match parse_task_exec(v, i1) {
        None => None,
        Some((t, j)) => {
            let j1 = skip_ws_exec(v, j);
            if j1 < v.len() {
                let c = v[j1];
                if c == ',' {
                    if i < j1 {
                        match parse_items_exec(v, j1 + 1) {
                            None => None,
                            Some((ts, k)) => {
                                let mut ts2 = ts;
                                let ghost ts0 = ts2@;
                                ts2.insert(0, t);
                                proof {
                                    assert(ts2@ =~= seq![t] + ts0);
                                    assert(views_of(ts2@) =~= seq![t@] + views_of(ts0));
                                }
                                Some((ts2, k))
                            },
                        }
                    } else {
                        None
                    }
                } else if c == ']' {
                    let mut ts: Vec<Task> = Vec::new();
                    ts.push(t);
                    proof {
                        assert(views_of(ts@) =~= seq![t@]);
                    }
                    Some((ts, j1 + 1))
                } else {
                    None
                }
            } else {
                None
            }
        },
    }
}

/// Parses a whole file content as a task array; on success the returned
/// tasks are exactly what the text spells, in file order. Any other text
/// is a `DeserializationError`.
pub fn parse_tasks_json(s: &str) -> (r: Result<Vec<Task>, TaskError>)
    ensures
        match parse_array(s@) {
            Some(tvs) => r matches Ok(ts) && views_of(ts@) == tvs && (forall|k: int|
                0 <= k < ts@.len() ==> (#[trigger] ts@[k])@.wf()),
            None => r == Err::<Vec<Task>, TaskError>(TaskError::DeserializationError),
        },
{
    let v = str_to_chars(s);
    let i0 = skip_ws_exec(&v, 0);
    if i0 < v.len() && v[i0] == '[' {
        let i1 = skip_ws_exec(&v, i0 + 1);
        if i1 < v.len() && v[i1] == ']' {
            if skip_ws_exec(&v, i1 + 1) == v.len() {
                let ts: Vec<Task> = Vec::new();
                proof {
                    assert(views_of(ts@) =~= Seq::<TaskView>::empty());
                }
                Ok(ts)
            } else {
                Err(TaskError::DeserializationError)
            }
        } else {
            match parse_items_exec(&v, i0 + 1) {
                Some((ts, j)) => {
                    if skip_ws_exec(&v, j) == v.len() {
                        Ok(ts)
                    } else {
                        Err(TaskError::DeserializationError)
                    }
                },
                None => Err(TaskError::DeserializationError),
            }
        }
    } else {
        Err(TaskError::DeserializationError)
    }
}

} // verus!
