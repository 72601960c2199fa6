//! The template engine: replaces un-escaped `{}` markers in a command-line
//! token by a substitution string, unescapes `{{` and `}}`, and counts how
//! many marker chunks and how many real substitutions occurred.
//!
//! A token is scanned as alternating maximal spans of plain characters and
//! marker characters (`{` and `}`). A marker span of exactly `{`, `}` or `}{`
//! is copied literally; any other marker span is consumed in two-character
//! chunks: `{}` emits the substitution, `{{` and `}}` emit one literal brace,
//! and anything else is a syntax error naming the offending span.

use vstd::prelude::*;
use vstd::string::*;

verus! {

/// The two characters that form placeholders and escapes.
pub open spec fn is_marker(c: char) -> bool {
    c == '{' || c == '}'
}

/// Length of the maximal prefix of `s` whose characters all are markers
/// (`m == true`) or all are plain (`m == false`).
pub open spec fn run_len(s: Seq<char>, m: bool) -> nat
    decreases s.len(),
{
    if s.len() == 0 || is_marker(s[0]) != m {
        0
    } else {
        1 + run_len(s.drop_first(), m)
    }
}

/// `run_len` never passes the end of the string, covers only characters of
/// its own class, and stops exactly at the first character of the other class.
pub proof fn lemma_run_len(s: Seq<char>, m: bool)
    ensures
        run_len(s, m) <= s.len(),
        forall|i: int| 0 <= i < run_len(s, m) ==> is_marker(s[i]) == m,
        run_len(s, m) < s.len() ==> is_marker(s[run_len(s, m) as int]) != m,
    decreases s.len(),
{
    if s.len() > 0 && is_marker(s[0]) == m {
        lemma_run_len(s.drop_first(), m);
        assert forall|i: int| 0 <= i < run_len(s, m) implies is_marker(s[i]) == m by {
            if i > 0 {
                assert(s[i] == s.drop_first()[i - 1]);
            }
        }
        if run_len(s, m) < s.len() {
            assert(s[run_len(s, m) as int] == s.drop_first()[run_len(s.drop_first(), m) as int]);
        }
    }
}

/// A maximal run is pinned down by its witness: if the first `k` characters
/// are of class `m` and the string ends or changes class at `k`, then the run
/// is exactly `k` characters long.
pub proof fn lemma_run_len_exact(s: Seq<char>, m: bool, k: int)
    requires
        0 <= k <= s.len(),
        forall|i: int| 0 <= i < k ==> is_marker(s[i]) == m,
        k < s.len() ==> is_marker(s[k]) != m,
    ensures
        run_len(s, m) == k,
    decreases s.len(),
{
    if k == 0 {
    } else {
        assert(is_marker(s[0]) == m);
        lemma_run_len_exact(s.drop_first(), m, k - 1);
        assert(forall|i: int| 0 <= i < s.len() - 1 ==> s.drop_first()[i] == s[i + 1]);
    }
}

/// A marker span copied literally rather than chunked: `{`, `}` or `}{`.
pub open spec fn is_literal_span(run: Seq<char>) -> bool {
    ||| (run.len() == 1 && (run[0] == '{' || run[0] == '}'))
    ||| (run.len() == 2 && run[0] == '}' && run[1] == '{')
}

/// Expansion of one marker-only span, consumed in two-character chunks.
/// Returns the emitted text, the number of marker chunks, and the number of
/// real substitutions; `None` on a mismatched chunk or a leftover character.
pub open spec fn expand_run(run: Seq<char>, t: Seq<char>) -> Option<(Seq<char>, nat, nat)>
    decreases run.len(),
{
    if run.len() == 0 {
        Some((Seq::empty(), 0nat, 0nat))
    } else if run.len() == 1 {
        None
    } else {
        let head: Option<(Seq<char>, nat, nat)> = if run[0] == '{' && run[1] == '}' {
            Some((t, 1nat, 1nat))
        } else if run[0] == '{' && run[1] == '{' {
            Some((seq!['{'], 1nat, 0nat))
        } else if run[0] == '}' && run[1] == '}' {
            Some((seq!['}'], 1nat, 0nat))
        } else {
            None
        };
        match head {
            Some(h) => match expand_run(run.skip(2), t) {
                Some(r) => Some((h.0 + r.0, h.1 + r.1, h.2 + r.2)),
                None => None,
            },
            None => None,
        }
    }
}

/// Full expansion of a token `s` with substitution `t`: alternating maximal
/// plain and marker spans; plain spans and literal marker spans are copied,
/// other marker spans are expanded chunkwise. The error carries the first
/// offending span.
pub open spec fn expand_template(s: Seq<char>, t: Seq<char>) -> Result<
    (Seq<char>, nat, nat),
    Seq<char>,
>
    decreases s.len(),
    via expand_template_decreases
{
    if s.len() == 0 {
        Ok((Seq::empty(), 0nat, 0nat))
    } else {
        let m = is_marker(s[0]);
        let n = run_len(s, m) as int;
        let run = s.take(n);
        let rest = s.skip(n);
        let head: Result<(Seq<char>, nat, nat), Seq<char>> = if !m || is_literal_span(run) {
            Ok((run, 0nat, 0nat))
        } else {
            match expand_run(run, t) {
                Some(h) => Ok(h),
                None => Err(run),
            }
        };
        match head {
            Ok(h) => match expand_template(rest, t) {
                Ok(r) => Ok((h.0 + r.0, h.1 + r.1, h.2 + r.2)),
                Err(e) => Err(e),
            },
            Err(e) => Err(e),
        }
    }
}

#[via_fn]
proof fn expand_template_decreases(s: Seq<char>, t: Seq<char>) {
    if s.len() > 0 {
        lemma_run_len(s, is_marker(s[0]));
        assert(run_len(s, is_marker(s[0])) >= 1) by {
            assert(is_marker(s[0]) == is_marker(s[0]));
        }
    }
}

/// Prepends already-emitted text and counts to the outcome of expanding the
/// rest of a marker span.
pub open spec fn opt_prepend(a: (Seq<char>, nat, nat), o: Option<(Seq<char>, nat, nat)>) -> Option<
    (Seq<char>, nat, nat),
> {
    match o {
        Some(r) => Some((a.0 + r.0, a.1 + r.1, a.2 + r.2)),
        None => None,
    }
}

/// Prepends already-emitted text and counts to the outcome of expanding the
/// rest of a token.
pub open spec fn res_prepend(a: (Seq<char>, nat, nat), r: Result<(Seq<char>, nat, nat), Seq<char>>)
    -> Result<(Seq<char>, nat, nat), Seq<char>> {
    match r {
        Ok(x) => Ok((a.0 + x.0, a.1 + x.1, a.2 + x.2)),
        Err(e) => Err(e),
    }
}

/// Whether `c` is one of the two marker characters.
fn is_marker_char(c: char) -> (b: bool)
    ensures
        b == is_marker(c),
{
    c == '{' || c == '}'
}

/// The characters of `s`, in order, as a vector.
fn str_to_chars(s: &str) -> (v: Vec<char>)
    ensures
        v@ == s@,
{
    let n = s.unicode_len();
    let mut v: Vec<char> = Vec::new();
    let mut i: usize = 0;
    while i < n
        invariant
            i <= n,
            n == s@.len(),
            v@ == s@.take(i as int),
        decreases n - i,
    {
        let c = s.get_char(i);
        v.push(c);
        proof {
            assert(s@.take(i + 1) =~= s@.take(i as int).push(s@[i as int]));
        }
        i += 1;
    }
    proof {
        assert(s@.take(n as int) =~= s@);
    }
    v
}

/// Relies on std's `String::push`: appends one character at the end of the
/// string.
#[verifier::external_body]
fn push_char(s: &mut String, c: char)
    ensures
        final(s)@ == old(s)@.push(c),
{
    s.push(c);
}

/// A string holding exactly the characters of `v`, in order.
pub(crate) fn chars_to_string(v: &Vec<char>) -> (s: String)
    ensures
        s@ == v@,
{
    let mut s = String::new();
    let mut i: usize = 0;
    while i < v.len()
        invariant
            i <= v@.len(),
            s@ == v@.take(i as int),
        decreases v@.len() - i,
    {
        push_char(&mut s, v[i]);
        proof {
            assert(v@.take(i + 1) =~= v@.take(i as int).push(v@[i as int]));
        }
        i += 1;
    }
    proof {
        assert(v@.take(v@.len() as int) =~= v@);
    }
    s
}

/// Appends the characters of `src[a..b]` to `out`.
fn extend_chars(out: &mut Vec<char>, src: &Vec<char>, a: usize, b: usize)
    requires
        a <= b <= src@.len(),
    ensures
        final(out)@ == old(out)@ + src@.subrange(a as int, b as int),
{
    let mut k: usize = a;
    while k < b
        invariant
            a <= k <= b <= src@.len(),
            out@ == old(out)@ + src@.subrange(a as int, k as int),
        decreases b - k,
    {
        out.push(src[k]);
        proof {
            assert(src@.subrange(a as int, k + 1) =~= src@.subrange(a as int, k as int).push(
                src@[k as int],
            ));
        }
        k += 1;
    }
}

/// Result of expanding one command-line token: the expanded text, the number
/// of marker chunks seen (substitutions and escapes together), and the number
/// of real substitutions.
pub struct TemplateResult {
    pub command: String,
    pub template_count: usize,
    pub total_count: usize,
}

/// A malformed marker span in a command-line token, carrying the span.
#[derive(Debug)]
pub enum TemplateError {
    InvalidTemplateSyntax(String),
}

proof fn lemma_opt_prepend_assoc(
    a: (Seq<char>, nat, nat),
    h: (Seq<char>, nat, nat),
    o: Option<(Seq<char>, nat, nat)>,
)
    ensures
        opt_prepend(a, opt_prepend(h, o)) == opt_prepend(
            (a.0 + h.0, (a.1 + h.1) as nat, (a.2 + h.2) as nat),
            o,
        ),
{
    match o {
        Some(x) => {
            assert(a.0 + (h.0 + x.0) =~= (a.0 + h.0) + x.0);
        },
        None => {},
    }
}

proof fn lemma_res_prepend_assoc(
    a: (Seq<char>, nat, nat),
    h: (Seq<char>, nat, nat),
    r: Result<(Seq<char>, nat, nat), Seq<char>>,
)
    ensures
        res_prepend(a, res_prepend(h, r)) == res_prepend(
            (a.0 + h.0, (a.1 + h.1) as nat, (a.2 + h.2) as nat),
            r,
        ),
{
    match r {
        Ok(x) => {
            assert(a.0 + (h.0 + x.0) =~= (a.0 + h.0) + x.0);
        },
        Err(_) => {},
    }
}

/// Expands the marker-only span `src[a..b]` chunkwise: the emitted text and
/// the two counts, or `None` on a malformed chunk or a leftover character.
fn expand_bracket_run(src: &Vec<char>, a: usize, b: usize, t: &Vec<char>) -> (r: Option<
    (Vec<char>, usize, usize),
>)
    requires
        a <= b <= src@.len(),
    ensures
        r matches Some(o) ==> {
            &&& expand_run(src@.subrange(a as int, b as int), t@) == Some::<
                (Seq<char>, nat, nat),
            >((o.0@, o.1 as nat, o.2 as nat))
            &&& 2 * o.1 <= b - a
            &&& o.2 <= o.1
        },
        r is None ==> expand_run(src@.subrange(a as int, b as int), t@) is None,
{
    let ghost run = src@.subrange(a as int, b as int);
    let mut out: Vec<char> = Vec::new();
    let mut tc: usize = 0;
    let mut sc: usize = 0;
    let mut k: usize = a;
    proof {
        assert(run.skip(0) =~= run);
        assert(Seq::<char>::empty() + run =~= run);
        match expand_run(run, t@) {
            Some(x) => {
                assert(Seq::<char>::empty() + x.0 =~= x.0);
            },
            None => {},
        }
    }
    while b - k > 1
        invariant
            a <= k <= b <= src@.len(),
            run == src@.subrange(a as int, b as int),
            (k - a) % 2 == 0,
            2 * tc <= k - a,
            sc <= tc,
            opt_prepend((out@, tc as nat, sc as nat), expand_run(run.skip(k - a), t@))
                == expand_run(run, t@),
        decreases b - k,
    {
        let c0 = src[k];
        let c1 = src[k + 1];
        let ghost suffix = run.skip(k - a);
        let ghost acc = (out@, tc as nat, sc as nat);
        proof {
            assert(suffix.len() == b - k);
            assert(suffix[0] == src@[k as int]);
            assert(suffix[1] == src@[k + 1]);
        }
        let ghost head: (Seq<char>, nat, nat);
        if c0 == '{' && c1 == '}' {
            extend_chars(&mut out, t, 0, t.len());
            proof {
                assert(t@.subrange(0, t@.len() as int) =~= t@);
                head = (t@, 1nat, 1nat);
            }
            tc += 1;
            sc += 1;
        } else if c0 == '{' && c1 == '{' {
            out.push('{');
            proof {
                head = (seq!['{'], 1nat, 0nat);
                assert(acc.0.push('{') =~= acc.0 + head.0);
            }
            tc += 1;
        } else if c0 == '}' && c1 == '}' {
            out.push('}');
            proof {
                head = (seq!['}'], 1nat, 0nat);
                assert(acc.0.push('}') =~= acc.0 + head.0);
            }
            tc += 1;
        } else {
            proof {
                assert(expand_run(suffix, t@) is None);
            }
            return None;
        }
        proof {
            assert(out@ == acc.0 + head.0);
            assert(suffix.skip(2) =~= run.skip(k - a + 2));
            assert(expand_run(suffix, t@) == opt_prepend(head, expand_run(suffix.skip(2), t@)));
            lemma_opt_prepend_assoc(acc, head, expand_run(run.skip(k - a + 2), t@));
        }
        k += 2;
    }
    if k < b {
        proof {
            assert(run.skip(k - a).len() == 1);
        }
        return None;
    }
    proof {
        assert(run.skip(k - a) =~= Seq::<char>::empty());
        assert(out@ + Seq::<char>::empty() =~= out@);
    }
    Some((out, tc, sc))
}

/// Expands a whole token given as characters. On success: the expanded text,
/// the marker-chunk count and the substitution count; on failure: the first
/// offending marker span.
fn expand_chars(cmd: &Vec<char>, t: &Vec<char>) -> (r: Result<
    (Vec<char>, usize, usize),
    Vec<char>,
>)
    ensures
        r matches Ok(o) ==> expand_template(cmd@, t@) == Ok::<(Seq<char>, nat, nat), Seq<char>>(
            (o.0@, o.1 as nat, o.2 as nat),
        ),
        r matches Err(e) ==> expand_template(cmd@, t@) == Err::<(Seq<char>, nat, nat), Seq<char>>(
            e@,
        ),
{
    let n = cmd.len();
    let mut out: Vec<char> = Vec::new();
    let mut tc: usize = 0;
    let mut sc: usize = 0;
    let mut i: usize = 0;
    proof {
        assert(cmd@.skip(0) =~= cmd@);
        assert(Seq::<char>::empty() + cmd@ =~= cmd@);
        match expand_template(cmd@, t@) {
            Ok(x) => {
                assert(Seq::<char>::empty() + x.0 =~= x.0);
            },
            Err(_) => {},
        }
    }
    while i < n
        invariant
            i <= n,
            n == cmd@.len(),
            2 * tc <= i,
            sc <= tc,
            res_prepend((out@, tc as nat, sc as nat), expand_template(cmd@.skip(i as int), t@))
                == expand_template(cmd@, t@),
        decreases n - i,
    {
        let m = is_marker_char(cmd[i]);
        let mut j: usize = i + 1;
        while j < n && (cmd[j] == '{' || cmd[j] == '}') == m
            invariant
                i < j <= n,
                n == cmd@.len(),
                forall|x: int| i <= x < j ==> is_marker(cmd@[x]) == m,
            decreases n - j,
        {
            j += 1;
        }
        let ghost suffix = cmd@.skip(i as int);
        let ghost acc = (out@, tc as nat, sc as nat);
        let ghost runlen = (j - i) as int;
        proof {
            assert(suffix.len() == n - i);
            assert forall|x: int| 0 <= x < runlen implies is_marker(suffix[x]) == m by {
                assert(suffix[x] == cmd@[x + i]);
            }
            if runlen < suffix.len() {
                assert(suffix[runlen] == cmd@[j as int]);
            }
            lemma_run_len_exact(suffix, m, runlen);
            assert(is_marker(suffix[0]) == m);
        }
        let ghost run = suffix.take(runlen);
        proof {
            assert(run =~= cmd@.subrange(i as int, j as int));
            assert(suffix.skip(runlen) =~= cmd@.skip(j as int));
        }
        let ghost head: (Seq<char>, nat, nat);
        if !m || j - i == 1 || (j - i == 2 && cmd[i] == '}' && cmd[i + 1] == '{') {
            // a plain span, or a literal marker span (`{`, `}` or `}{`)
            extend_chars(&mut out, cmd, i, j);
            proof {
                if m {
                    assert(run[0] == cmd@[i as int]);
                    if runlen == 2 {
                        assert(run[1] == cmd@[i + 1]);
                    }
                    assert(is_literal_span(run));
                }
                head = (run, 0nat, 0nat);
                assert(out@ == acc.0 + head.0);
            }
        } else {
            proof {
                assert(!is_literal_span(run)) by {
                    assert(run[0] == cmd@[i as int]);
                    if runlen == 2 {
                        assert(run[1] == cmd@[i + 1]);
                    }
                }
            }
            match expand_bracket_run(cmd, i, j, t) {
                Some(o) => {
                    let (piece, ptc, psc) = o;
                    extend_chars(&mut out, &piece, 0, piece.len());
                    proof {
                        assert(piece@.subrange(0, piece@.len() as int) =~= piece@);
                        head = (piece@, ptc as nat, psc as nat);
                        assert(out@ == acc.0 + head.0);
                        assert(expand_template(suffix, t@) == res_prepend(
                            head,
                            expand_template(suffix.skip(runlen), t@),
                        ));
                    }
                    tc += ptc;
                    sc += psc;
                },
                None => {
                    let mut span: Vec<char> = Vec::new();
                    extend_chars(&mut span, cmd, i, j);
                    proof {
                        assert(Seq::<char>::empty() + run =~= run);
                        assert(expand_template(suffix, t@) == Err::<
                            (Seq<char>, nat, nat),
                            Seq<char>,
                        >(run));
                    }
                    return Err(span);
                },
            }
        }
        proof {
            assert(expand_template(suffix, t@) == res_prepend(
                head,
                expand_template(suffix.skip(runlen), t@),
            ));
            lemma_res_prepend_assoc(acc, head, expand_template(cmd@.skip(j as int), t@));
        }
        i = j;
    }
    proof {
        assert(cmd@.skip(n as int) =~= Seq::<char>::empty());
        assert(out@ + Seq::<char>::empty() =~= out@);
    }
    Ok((out, tc, sc))
}

/// Law: a token without marker characters expands to itself, with both
/// counts zero, whatever the substitution is.
pub proof fn lemma_no_marker_identity(s: Seq<char>, t: Seq<char>)
    requires
        forall|i: int| 0 <= i < s.len() ==> !is_marker(s[i]),
    ensures
        expand_template(s, t) == Ok::<(Seq<char>, nat, nat), Seq<char>>((s, 0nat, 0nat)),
{
    if s.len() == 0 {
        assert(s =~= Seq::<char>::empty());
    } else {
        assert(!is_marker(s[0]));
        lemma_run_len_exact(s, false, s.len() as int);
        assert(s.skip(s.len() as int) =~= Seq::<char>::empty());
        assert(expand_template(Seq::<char>::empty(), t) == Ok::<(Seq<char>, nat, nat), Seq<char>>(
            (Seq::<char>::empty(), 0nat, 0nat),
        ));
        assert(s.take(s.len() as int) + Seq::<char>::empty() =~= s);
    }
}

/// A token made only of doubled marker characters: each two-character chunk
/// is `{{` or `}}`.
pub open spec fn all_escape_pairs(s: Seq<char>) -> bool {
    &&& s.len() % 2 == 0
    &&& forall|k: int|
        0 <= k < s.len() / 2 ==> is_marker(#[trigger] s[2 * k]) && s[2 * k + 1] == s[2 * k]
}

proof fn lemma_expand_run_escapes(run: Seq<char>, t: Seq<char>)
    requires
        all_escape_pairs(run),
    ensures
        expand_run(run, t) matches Some(o) && o.0.len() == run.len() / 2 && o.1 == run.len() / 2
            && o.2 == 0 && forall|k: int| 0 <= k < run.len() / 2 ==> o.0[k] == run[2 * k],
    decreases run.len(),
{
    if run.len() > 0 {
        assert(is_marker(run[2 * 0int]) && run[2 * 0int + 1] == run[2 * 0int]);
        assert(is_marker(run[0]) && run[1] == run[0]);
        let rest = run.skip(2);
        assert(all_escape_pairs(rest)) by {
            assert forall|k: int| 0 <= k < rest.len() / 2 implies is_marker(
                #[trigger] rest[2 * k],
            ) && rest[2 * k + 1] == rest[2 * k] by {
                assert(rest[2 * k] == run[2 * (k + 1)]);
                assert(rest[2 * k + 1] == run[2 * (k + 1) + 1]);
                assert(is_marker(run[2 * (k + 1)]) && run[2 * (k + 1) + 1] == run[2 * (k + 1)]);
            }
        }
        lemma_expand_run_escapes(rest, t);
        let h = seq![run[0]];
        let o = expand_run(run, t)->Some_0;
        let orest = expand_run(rest, t)->Some_0;
        assert(o.0 == h + orest.0);
        assert forall|k: int| 0 <= k < run.len() / 2 implies o.0[k] == run[2 * k] by {
            if k > 0 {
                assert(o.0[k] == orest.0[k - 1]);
                assert(orest.0[k - 1] == rest[2 * (k - 1)]);
                assert(rest[2 * (k - 1)] == run[2 * k]);
            }
        }
    }
}

/// Law: expanding a token made only of `{{` and `}}` escape pairs never
/// substitutes (the substitution count is zero), counts one marker chunk per
/// pair, and halves each pair into a single brace, so that doubling every
/// character of the output restores the original token.
pub proof fn lemma_escape_round_trip(s: Seq<char>, t: Seq<char>)
    requires
        all_escape_pairs(s),
    ensures
        expand_template(s, t) matches Ok(o) && o.0.len() == s.len() / 2 && o.1 == s.len() / 2
            && o.2 == 0 && forall|k: int|
            0 <= k < s.len() / 2 ==> o.0[k] == s[2 * k] && s[2 * k + 1] == o.0[k],
{
    if s.len() == 0 {
    } else {
        assert(is_marker(s[0])) by {
            assert(is_marker(s[2 * 0int]));
        }
        assert forall|i: int| 0 <= i < s.len() implies is_marker(s[i]) by {
            let k = i / 2;
            assert(is_marker(s[2 * k]) && s[2 * k + 1] == s[2 * k]);
            assert(i == 2 * k || i == 2 * k + 1);
        }
        lemma_run_len_exact(s, true, s.len() as int);
        let run = s.take(s.len() as int);
        assert(run =~= s);
        assert(!is_literal_span(run)) by {
            if run.len() == 2 {
                assert(s[2 * 0int + 1] == s[2 * 0int]);
            }
        }
        lemma_expand_run_escapes(s, t);
        assert(s.skip(s.len() as int) =~= Seq::<char>::empty());
        assert(expand_template(Seq::<char>::empty(), t) == Ok::<(Seq<char>, nat, nat), Seq<char>>(
            (Seq::<char>::empty(), 0nat, 0nat),
        ));
        let o = expand_run(s, t)->Some_0;
        assert(expand_run(run, t) == expand_run(s, t));
        assert(o.0 + Seq::<char>::empty() =~= o.0);
    }
}

/// Expands all un-escaped `{}` markers of `command` to `template`, unescapes
/// `{{` and `}}`, and reports the marker-chunk and substitution counts.
/// Fails exactly when the token holds a malformed marker span, and the error
/// names the first such span.
pub fn process_command_template(command: &str, template: &str) -> (r: Result<
    TemplateResult,
    TemplateError,
>)
    ensures
        (r is Ok) == (expand_template(command@, template@) is Ok),
        r matches Ok(res) ==> expand_template(command@, template@) == Ok::<
            (Seq<char>, nat, nat),
            Seq<char>,
        >((res.command@, res.template_count as nat, res.total_count as nat)),
        r matches Err(TemplateError::InvalidTemplateSyntax(sp)) ==> expand_template(
            command@,
            template@,
        ) == Err::<(Seq<char>, nat, nat), Seq<char>>(sp@),
{
    let cmd = str_to_chars(command);
    let t = str_to_chars(template);
    match expand_chars(&cmd, &t) {
        Ok(o) => {
            let (piece, tc, sc) = o;
            Ok(TemplateResult { command: chars_to_string(&piece), template_count: tc, total_count: sc })
        },
        Err(e) => Err(TemplateError::InvalidTemplateSyntax(chars_to_string(&e))),
    }
}

} // verus!
