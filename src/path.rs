//! Substituting path parameters into an operation's path template.
use vstd::prelude::*;
use crate::command_tree::{Operation, ParamDef};
use crate::error::EngineError;
use crate::json::JsonValue;
use crate::text::{chars_of, contains_char, has_char, has_prefix, push_all, str_eq, string_of};

verus! {

/// The percent-encoded form of a string, as the URL encoder produces it.
pub uninterp spec fn url_encoded(s: Seq<char>) -> Seq<char>;

/// Relies on `urlencoding::encode`: every byte other than an ASCII letter,
/// digit, `-`, `_`, `.` or `~` becomes `%XX`, so no brace survives.
#[verifier::external_body]
fn url_encode(s: &str) -> (r: String)
    ensures
        r@ == url_encoded(s@),
        !has_char(r@, '{'),
        !has_char(r@, '}'),
{
    urlencoding::encode(s).into_owned()
}

/// A value given for a parameter, by name.
#[derive(Debug)]
pub enum ArgValue {
    /// One value.
    Single(String),
    /// Repeated values, in the order given.
    Multiple(Vec<String>),
    /// A structured JSON value.
    Json(JsonValue),
}

/// The inputs of one invocation: parameter name and value.
pub type ArgValues = Vec<(String, ArgValue)>;

/// The value given for parameter `name`, first one wins.
pub open spec fn arg_lookup(args: Seq<(String, ArgValue)>, name: Seq<char>) -> Option<ArgValue>
    decreases args.len(),
{
    if args.len() == 0 {
        None
    } else if args[0].0@ == name {
        Some(args[0].1)
    } else {
        arg_lookup(args.subrange(1, args.len() as int), name)
    }
}

/// Looks up the value given for parameter `name`.
pub fn find_arg<'a>(args: &'a ArgValues, name: &str) -> (r: Option<&'a ArgValue>)
    ensures
        r matches Some(x) ==> arg_lookup(args@, name@) == Some(*x),
        r is None ==> arg_lookup(args@, name@) is None,
{
    let mut i: usize = 0;
    assert(args@.subrange(0, args@.len() as int) =~= args@);
    while i < args.len()
        invariant
            i <= args.len(),
            arg_lookup(args@, name@) == arg_lookup(args@.subrange(i as int, args@.len() as int), name@),
        decreases args.len() - i,
    {
        let ghost rest = args@.subrange(i as int, args@.len() as int);
        assert(rest.subrange(1, rest.len() as int) =~= args@.subrange(i + 1, args@.len() as int));
        assert(rest[0] == args@[i as int]);
        if str_eq(args[i].0.as_str(), name) {
            return Some(&args[i].1);
        }
        i = i + 1;
    }
    None
}

/// `s` with every non-overlapping occurrence of `pat` replaced by `rep`,
/// scanning from the left.
pub open spec fn replace_all(s: Seq<char>, pat: Seq<char>, rep: Seq<char>) -> Seq<char>
    decreases s.len(),
{
    if pat.len() == 0 || s.len() < pat.len() {
        s
    } else if s.subrange(0, pat.len() as int) == pat {
        rep + replace_all(s.subrange(pat.len() as int, s.len() as int), pat, rep)
    } else {
        seq![s[0]] + replace_all(s.subrange(1, s.len() as int), pat, rep)
    }
}

/// Whether `pat` occurs in `s` at index `i`.
fn occurs_at(s: &Vec<char>, i: usize, pat: &Vec<char>) -> (r: bool)
    requires
        i <= s.len(),
    ensures
        r == has_prefix(s@.subrange(i as int, s@.len() as int), pat@),
{
    let ghost t = s@.subrange(i as int, s@.len() as int);
    if pat.len() > s.len() - i {
        return false;
    }
    let mut j: usize = 0;
    while j < pat.len()
        invariant
            i + pat.len() <= s.len(),
            t == s@.subrange(i as int, s@.len() as int),
            j <= pat.len(),
            forall|k: int| 0 <= k < j ==> s@[i + k] == pat@[k],
        decreases pat.len() - j,
    {
        if s[i + j] != pat[j] {
            assert(t.subrange(0, pat.len() as int)[j as int] != pat@[j as int]);
            return false;
        }
        j = j + 1;
    }
    assert(t.subrange(0, pat.len() as int) =~= pat@);
    true
}

/// Replaces every occurrence of `pat` in `s` by `rep`.
pub fn replace_all_exec(s: &Vec<char>, pat: &Vec<char>, rep: &Vec<char>) -> (r: Vec<char>)
    requires
        pat.len() > 0,
    ensures
        r@ == replace_all(s@, pat@, rep@),
{
    let mut out: Vec<char> = Vec::new();
    let mut i: usize = 0;
    assert(s@.subrange(0, s@.len() as int) =~= s@);
    assert(out@ + s@ =~= s@);
    while i < s.len()
        invariant
            i <= s.len(),
            pat.len() > 0,
            replace_all(s@, pat@, rep@) == out@ + replace_all(s@.subrange(i as int, s@.len() as int), pat@, rep@),
        decreases s.len() - i,
    {
        let ghost t = s@.subrange(i as int, s@.len() as int);
        if occurs_at(s, i, pat) {
            assert(t.subrange(pat.len() as int, t.len() as int) =~= s@.subrange(i + pat.len(), s@.len() as int));
            push_all(&mut out, rep);
            i = i + pat.len();
            assert(replace_all(s@, pat@, rep@) == out@ + replace_all(s@.subrange(i as int, s@.len() as int), pat@, rep@));
        } else {
            assert(t.subrange(1, t.len() as int) =~= s@.subrange(i + 1, s@.len() as int));
            proof {
                if t.len() >= pat.len() {
                    assert(t.subrange(0, pat.len() as int) != pat@);
                    assert(replace_all(t, pat@, rep@) == seq![t[0]] + replace_all(t.subrange(1, t.len() as int), pat@, rep@));
                } else {
                    assert(replace_all(t, pat@, rep@) == t);
                    assert(replace_all(t.subrange(1, t.len() as int), pat@, rep@) == t.subrange(1, t.len() as int));
                    assert(t =~= seq![t[0]] + t.subrange(1, t.len() as int));
                }
            }
            out.push(s[i]);
            i = i + 1;
            assert(out@ + replace_all(s@.subrange(i as int, s@.len() as int), pat@, rep@)
                =~= (out@.drop_last()) + (seq![t[0]] + replace_all(t.subrange(1, t.len() as int), pat@, rep@)));
        }
    }
    assert(replace_all(s@.subrange(s@.len() as int, s@.len() as int), pat@, rep@) =~= Seq::<char>::empty());
    assert(out@ + Seq::<char>::empty() =~= out@);
    out
}

/// The placeholder for parameter `name`: `{name}`.
pub open spec fn placeholder(name: Seq<char>) -> Seq<char> {
    seq!['{'] + name + seq!['}']
}

/// Whether a parameter belongs in the path.
pub open spec fn in_path(p: ParamDef) -> bool {
    p.location@ == "path"@
}

/// The value that fills path parameter `p`: the explicit input, else the
/// configured account default for `ad_account_id`, else none.
pub open spec fn path_value(p: ParamDef, args: Seq<(String, ArgValue)>, account: Option<String>) -> Option<Seq<char>> {
    match arg_lookup(args, p.name@) {
        Some(ArgValue::Single(v)) => Some(v@),
        _ => if p.name@ == "ad_account_id"@ && account is Some {
            Some(account->0@)
        } else {
            None
        },
    }
}

/// The template after substituting the path parameters among the first `n`
/// of `params`, in order; `Err` names the first one without a value.
pub open spec fn substitute(
    template: Seq<char>,
    params: Seq<ParamDef>,
    n: nat,
    args: Seq<(String, ArgValue)>,
    account: Option<String>,
) -> Result<Seq<char>, Seq<char>>
    decreases n,
{
    if n == 0 || n > params.len() {
        Ok(template)
    } else {
        match substitute(template, params, (n - 1) as nat, args, account) {
            Err(e) => Err(e),
            Ok(p) => {
                let q = params[n - 1];
                if !in_path(q) {
                    Ok(p)
                } else {
                    match path_value(q, args, account) {
                        None => Err(q.name@),
                        Some(v) => Ok(replace_all(p, placeholder(q.name@), url_encoded(v))),
                    }
                }
            },
        }
    }
}

/// Once a parameter lacks a value, substituting more parameters keeps that error.
proof fn lemma_substitute_err_stays(
    template: Seq<char>,
    params: Seq<ParamDef>,
    k: nat,
    n: nat,
    args: Seq<(String, ArgValue)>,
    account: Option<String>,
)
    requires
        0 < k <= n <= params.len(),
        substitute(template, params, k, args, account) is Err,
    ensures
        substitute(template, params, n, args, account) == substitute(template, params, k, args, account),
    decreases n - k,
{
    if n > k {
        lemma_substitute_err_stays(template, params, k, (n - 1) as nat, args, account);
    }
}

/// Resolves the path of `op`: every path parameter's value, percent-encoded,
/// replaces its `{name}` placeholder.
pub fn build_path(op: &Operation, args: &ArgValues, account: &Option<String>) -> (r: Result<String, EngineError>)
    ensures
        match substitute(op.path@, op.params@, op.params@.len(), args@, *account) {
            Err(name) => r matches Err(EngineError::MissingRequiredParam(x)) && x@ == name,
            Ok(p) => if has_char(p, '{') {
                r matches Err(EngineError::UnresolvedPathTemplate(t)) && t@ == op.path@
            } else {
                r matches Ok(s) && s@ == p
            },
        },
        r matches Ok(s) ==> !has_char(s@, '{'),
        r is Ok ==> forall|i: int| 0 <= i < op.params@.len() && in_path(#[trigger] op.params@[i])
            ==> (path_value(op.params@[i], args@, *account) matches Some(v) && brace_free(url_encoded(v))),
{
    let mut path = chars_of(op.path.as_str());
    let mut i: usize = 0;
    while i < op.params.len()
        invariant
            i <= op.params.len(),
            substitute(op.path@, op.params@, i as nat, args@, *account) == Ok::<Seq<char>, Seq<char>>(path@),
            forall|j: int| 0 <= j < i && in_path(#[trigger] op.params@[j])
                ==> (path_value(op.params@[j], args@, *account) matches Some(v) && brace_free(url_encoded(v))),
        decreases op.params.len() - i,
    {
        let q = &op.params[i];
        if str_eq(q.location.as_str(), "path") {
            let value: Option<&String> = match find_arg(args, q.name.as_str()) {
                Some(ArgValue::Single(v)) => Some(v),
                _ => if str_eq(q.name.as_str(), "ad_account_id") {
                    match account {
                        Some(a) => Some(a),
                        None => None,
                    }
                } else {
                    None
                },
            };
            match value {
                None => {
                    proof {
                        lemma_substitute_err_stays(op.path@, op.params@, (i + 1) as nat, op.params@.len(), args@, *account);
                    }
                    return Err(EngineError::MissingRequiredParam(q.name.clone()));
                },
                Some(v) => {
                    let encoded = url_encode(v.as_str());
                    let mut pat: Vec<char> = vec!['{'];
                    push_all(&mut pat, &chars_of(q.name.as_str()));
                    pat.push('}');
                    assert(pat@ =~= placeholder(q.name@));
                    path = replace_all_exec(&path, &pat, &chars_of(encoded.as_str()));
                },
            }
        }
        i = i + 1;
    }
    if contains_char(&path, '{') {
        return Err(EngineError::UnresolvedPathTemplate(op.path.clone()));
    }
    Ok(string_of(&path))
}

/// `s` holds neither brace.
pub open spec fn brace_free(s: Seq<char>) -> bool {
    !has_char(s, '{') && !has_char(s, '}')
}

/// A prefix without the pattern's first character passes through unchanged.
proof fn lemma_replace_skips_prefix(a: Seq<char>, t: Seq<char>, pat: Seq<char>, rep: Seq<char>)
    requires
        pat.len() > 0,
        forall|i: int| 0 <= i < a.len() ==> a[i] != pat[0],
    ensures
        replace_all(a + t, pat, rep) == a + replace_all(t, pat, rep),
    decreases a.len(),
{
    if a.len() > 0 {
        let s = a + t;
        let a1 = a.subrange(1, a.len() as int);
        lemma_replace_skips_prefix(a1, t, pat, rep);
        assert(s.subrange(1, s.len() as int) =~= a1 + t);
        if s.len() >= pat.len() {
            assert(s.subrange(0, pat.len() as int)[0] != pat[0]);
        } else {
            assert(t.len() < pat.len());
            assert(replace_all(t, pat, rep) == t);
            assert(replace_all(a1 + t, pat, rep) == a1 + t);
        }
        assert(a =~= seq![a[0]] + a1);
        assert(seq![s[0]] + (a1 + replace_all(t, pat, rep)) =~= a + replace_all(t, pat, rep));
    }
}

/// A string without the pattern's first character is left as it is.
proof fn lemma_replace_absent(t: Seq<char>, pat: Seq<char>, rep: Seq<char>)
    requires
        pat.len() > 0,
        forall|i: int| 0 <= i < t.len() ==> t[i] != pat[0],
    ensures
        replace_all(t, pat, rep) == t,
{
    lemma_replace_skips_prefix(t, Seq::empty(), pat, rep);
    assert(t + Seq::<char>::empty() =~= t);
}

/// The pattern at the front is replaced, then the rest is scanned.
proof fn lemma_replace_front(pat: Seq<char>, b: Seq<char>, rep: Seq<char>)
    requires
        pat.len() > 0,
    ensures
        replace_all(pat + b, pat, rep) == rep + replace_all(b, pat, rep),
{
    let s = pat + b;
    assert(s.subrange(0, pat.len() as int) =~= pat);
    assert(s.subrange(pat.len() as int, s.len() as int) =~= b);
}

/// Replacing `{x}` leaves `{y}` and what follows alone when the names differ
/// and the rest holds no brace.
proof fn lemma_other_placeholder_kept(x: Seq<char>, y: Seq<char>, s2: Seq<char>, rep: Seq<char>)
    requires
        brace_free(x),
        brace_free(y),
        brace_free(s2),
        x != y,
    ensures
        replace_all(placeholder(y) + s2, placeholder(x), rep) == placeholder(y) + s2,
{
    let px = placeholder(x);
    let t = placeholder(y) + s2;
    let rest = y + seq!['}'] + s2;
    assert(t =~= seq!['{'] + rest);
    assert(t.subrange(1, t.len() as int) =~= rest);
    if t.len() >= px.len() && t.subrange(0, px.len() as int) == px {
        let k: int = x.len() as int;
        let m: int = y.len() as int;
        assert(t[k + 1] == '}') by {
            assert(px[k + 1] == '}');
            assert(t.subrange(0, px.len() as int)[k + 1] == px[k + 1]);
        }
        if k < m {
            assert(t[k + 1] == y[k]);
            assert(has_char(y, '}'));
        } else if k > m {
            assert(t[m + 1] == '}');
            assert(px[m + 1] == x[m]);
            assert(t.subrange(0, px.len() as int)[m + 1] == px[m + 1]);
            assert(has_char(x, '}'));
        } else {
            assert forall|i: int| 0 <= i < x.len() implies x[i] == y[i] by {
                assert(px[i + 1] == x[i]);
                assert(t[i + 1] == y[i]);
                assert(t.subrange(0, px.len() as int)[i + 1] == px[i + 1]);
            }
            assert(x =~= y);
        }
    }
    assert forall|i: int| 0 <= i < rest.len() implies rest[i] != px[0] by {
        if i < y.len() {
            assert(rest[i] == y[i]);
        } else if i > y.len() {
            assert(rest[i] == s2[i - y.len() - 1]);
        }
    }
    lemma_replace_absent(rest, px, rep);
    if t.len() >= px.len() {
        assert(replace_all(t, px, rep) == seq![t[0]] + replace_all(rest, px, rep));
    }
}

/// Path substitution: for a template `s0{x}s1{y}s2` whose segments and
/// distinct names hold no brace, with `x` and `y` its two path parameters,
/// given values for both the path is the template with each placeholder
/// replaced by its percent-encoded value, and holds no brace; without a
/// value for `y` it is the error naming `y`. (Percent-encoding yields no
/// brace: `build_path` guarantees the requirements on the encoded values
/// for every path it returns.)
pub proof fn lemma_path_substitution(
    op: Operation,
    s0: Seq<char>,
    s1: Seq<char>,
    s2: Seq<char>,
    args: Seq<(String, ArgValue)>,
    account: Option<String>,
)
    requires
        brace_free(s0),
        brace_free(s1),
        brace_free(s2),
        op.params@.len() == 2,
        in_path(op.params@[0]),
        in_path(op.params@[1]),
        brace_free(op.params@[0].name@),
        brace_free(op.params@[1].name@),
        op.params@[0].name@ != op.params@[1].name@,
        op.path@ == s0 + placeholder(op.params@[0].name@) + s1 + placeholder(op.params@[1].name@) + s2,
        path_value(op.params@[0], args, account) is Some,
        brace_free(url_encoded(path_value(op.params@[0], args, account)->0)),
        path_value(op.params@[1], args, account) matches Some(v) ==> brace_free(url_encoded(v)),
    ensures
        ({
            let vx = url_encoded(path_value(op.params@[0], args, account)->0);
            match path_value(op.params@[1], args, account) {
                Some(y) => substitute(op.path@, op.params@, 2, args, account)
                    == Ok::<Seq<char>, Seq<char>>(s0 + vx + s1 + url_encoded(y) + s2)
                    && brace_free(s0 + vx + s1 + url_encoded(y) + s2),
                None => substitute(op.path@, op.params@, 2, args, account)
                    == Err::<Seq<char>, Seq<char>>(op.params@[1].name@),
            }
        }),
{
    let x = op.params@[0].name@;
    let y = op.params@[1].name@;
    let px = placeholder(x);
    let py = placeholder(y);
    let vx = url_encoded(path_value(op.params@[0], args, account)->0);
    assert(px[0] == '{');
    assert(forall|i: int| 0 <= i < s0.len() ==> s0[i] != px[0]);
    assert(op.path@ =~= s0 + (px + (s1 + (py + s2))));
    lemma_replace_skips_prefix(s0, px + (s1 + (py + s2)), px, vx);
    lemma_replace_front(px, s1 + (py + s2), vx);
    assert(forall|i: int| 0 <= i < s1.len() ==> s1[i] != px[0]);
    lemma_replace_skips_prefix(s1, py + s2, px, vx);
    lemma_other_placeholder_kept(x, y, s2, vx);
    let after_x = s0 + vx + s1 + py + s2;
    assert(replace_all(op.path@, px, vx) =~= after_x);
    assert(substitute(op.path@, op.params@, 0, args, account) == Ok::<Seq<char>, Seq<char>>(op.path@));
    assert(substitute(op.path@, op.params@, 1, args, account) == Ok::<Seq<char>, Seq<char>>(after_x));
    if path_value(op.params@[1], args, account) is Some {
        let vy = url_encoded(path_value(op.params@[1], args, account)->0);
        let pre = s0 + vx + s1;
        assert forall|i: int| 0 <= i < pre.len() implies pre[i] != py[0] by {
            if i < s0.len() {
                assert(pre[i] == s0[i]);
            } else if i < s0.len() + vx.len() {
                assert(pre[i] == vx[i - s0.len()]);
            } else {
                assert(pre[i] == s1[i - s0.len() - vx.len()]);
            }
        }
        assert(after_x =~= pre + (py + s2));
        lemma_replace_skips_prefix(pre, py + s2, py, vy);
        lemma_replace_front(py, s2, vy);
        assert(forall|i: int| 0 <= i < s2.len() ==> s2[i] != py[0]);
        lemma_replace_absent(s2, py, vy);
        assert(replace_all(after_x, py, vy) =~= s0 + vx + s1 + vy + s2);
        let r = s0 + vx + s1 + vy + s2;
        assert forall|i: int| 0 <= i < r.len() implies r[i] != '{' && r[i] != '}' by {
            if i < s0.len() {
                assert(r[i] == s0[i]);
            } else if i < s0.len() + vx.len() {
                assert(r[i] == vx[i - s0.len()]);
            } else if i < s0.len() + vx.len() + s1.len() {
                assert(r[i] == s1[i - s0.len() - vx.len()]);
            } else if i < s0.len() + vx.len() + s1.len() + vy.len() {
                assert(r[i] == vy[i - s0.len() - vx.len() - s1.len()]);
            } else {
                assert(r[i] == s2[i - s0.len() - vx.len() - s1.len() - vy.len()]);
            }
        }
    }
}

} // verus!
