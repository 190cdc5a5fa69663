//! Substitution of environment variables into command tokens: `$NAME` and
//! `${NAME}` are replaced by the value the environment gives `NAME`, where a
//! name is a run of ASCII letters, digits and underscores. A `$` that starts
//! no such reference stays as it is; a name the environment does not define
//! is an error.
use vstd::prelude::*;

use crate::select::env_value;

verus! {

/// Relies on `String::push`: appends one character.
#[verifier::external_body]
pub(crate) fn push_char(s: &mut String, c: char)
    ensures
        final(s)@ == old(s)@.push(c),
{
    s.push(c)
}

/// A character that may appear in a variable name.
pub open spec fn is_name_char(c: char) -> bool {
    ('a' <= c && c <= 'z') || ('A' <= c && c <= 'Z') || ('0' <= c && c <= '9') || c == '_'
}

/// The end of the run of name characters that starts at `i`.
pub open spec fn name_end(s: Seq<char>, i: int) -> int
    decreases s.len() - i,
{
    if 0 <= i < s.len() && is_name_char(s[i]) {
        name_end(s, i + 1)
    } else {
        i
    }
}

/// The value of `key` in `env`: that of the first pair with this key.
pub open spec fn lookup(env: Seq<(String, String)>, key: Seq<char>) -> Option<Seq<char>> {
    if exists|v: Seq<char>| env_value(env, key, v) {
        Some(choose|v: Seq<char>| env_value(env, key, v))
    } else {
        None
    }
}

/// A variable reference at `i`: the name, and where the text after it
/// starts.
pub open spec fn reference_at(s: Seq<char>, i: int) -> Option<(Seq<char>, int)> {
    if 0 <= i && i + 1 < s.len() && s[i] == '$' {
        if s[i + 1] == '{' {
            let e = name_end(s, i + 2);
            if e > i + 2 && e < s.len() && s[e] == '}' {
                Some((s.subrange(i + 2, e), e + 1))
            } else {
                None
            }
        } else {
            let e = name_end(s, i + 1);
            if e > i + 1 {
                Some((s.subrange(i + 1, e), e))
            } else {
                None
            }
        }
    } else {
        None
    }
}

/// `out` followed by the result, or the error as it is.
pub open spec fn prepend(out: Seq<char>, r: Result<Seq<char>, Seq<char>>) -> Result<Seq<char>, Seq<char>> {
    match r {
        Ok(x) => Ok(out + x),
        Err(v) => Err(v),
    }
}

/// The text of `s` from `i` on with every variable reference replaced, or
/// the first name the environment does not define.
pub open spec fn expand_from(s: Seq<char>, env: Seq<(String, String)>, i: int) -> Result<Seq<char>, Seq<char>>
    decreases s.len() - i,
{
    if i < 0 || i >= s.len() {
        Ok(Seq::empty())
    } else {
        match reference_at(s, i) {
            Some((name, next)) => if i < next <= s.len() {
                match lookup(env, name) {
                    Some(v) => prepend(v, expand_from(s, env, next)),
                    None => Err(name),
                }
            } else {
                Ok(Seq::empty())
            },
            None => prepend(seq![s[i]], expand_from(s, env, i + 1)),
        }
    }
}

/// The whole of `s` with every variable reference replaced.
pub open spec fn expand(s: Seq<char>, env: Seq<(String, String)>) -> Result<Seq<char>, Seq<char>> {
    expand_from(s, env, 0)
}

proof fn lemma_name_end_bounds(s: Seq<char>, i: int)
    requires
        0 <= i <= s.len(),
    ensures
        i <= name_end(s, i) <= s.len(),
        forall|j: int| i <= j < name_end(s, i) ==> is_name_char(#[trigger] s[j]),
        name_end(s, i) < s.len() ==> !is_name_char(s[name_end(s, i)]),
    decreases s.len() - i,
{
    if i < s.len() && is_name_char(s[i]) {
        lemma_name_end_bounds(s, i + 1);
    }
}

proof fn lemma_prepend_assoc(a: Seq<char>, b: Seq<char>, r: Result<Seq<char>, Seq<char>>)
    ensures
        prepend(a, prepend(b, r)) == prepend(a + b, r),
{
    match r {
        Ok(x) => {
            assert(a + (b + x) =~= (a + b) + x);
        },
        Err(_) => {},
    }
}

fn is_name_char_exec(c: char) -> (r: bool)
    ensures
        r == is_name_char(c),
{
    ('a' <= c && c <= 'z') || ('A' <= c && c <= 'Z') || ('0' <= c && c <= '9') || c == '_'
}

fn scan_name(s: &str, i: usize) -> (e: usize)
    requires
        i <= s@.len(),
    ensures
        e == name_end(s@, i as int),
{
    let len = s.unicode_len();
    let mut e = i;
    proof {
        lemma_name_end_bounds(s@, i as int);
    }
    while e < len && is_name_char_exec(s.get_char(e))
        invariant
            len == s@.len(),
            i <= e <= len,
            name_end(s@, e as int) == name_end(s@, i as int),
        decreases len - e,
    {
        e += 1;
    }
    e
}

/// The characters of `s` from `from` to `to`.
fn substring(s: &str, from: usize, to: usize) -> (r: String)
    requires
        from <= to <= s@.len(),
    ensures
        r@ == s@.subrange(from as int, to as int),
{
    let mut r = String::new();
    let mut k = from;
    while k < to
        invariant
            from <= k <= to,
            to <= s@.len(),
            r@ == s@.subrange(from as int, k as int),
        decreases to - k,
    {
        push_char(&mut r, s.get_char(k));
        k += 1;
        assert(r@ =~= s@.subrange(from as int, k as int));
    }
    r
}

/// The value of `key` in `env`.
pub fn lookup_value(env: &Vec<(String, String)>, key: &String) -> (r: Option<String>)
    ensures
        match r {
            Some(v) => lookup(env@, key@) == Some(v@),
            None => lookup(env@, key@) is None,
        },
{
    let mut j: usize = 0;
    while j < env.len()
        invariant
            j <= env.len(),
            forall|i: int| 0 <= i < j ==> env@[i].0@ != key@,
        decreases env.len() - j,
    {
        if env[j].0 == *key {
            let v = env[j].1.clone();
            proof {
                assert(env_value(env@, key@, v@));
                let w = choose|w: Seq<char>| env_value(env@, key@, w);
                let j2 = choose|j2: int|
                    0 <= j2 < env@.len() && #[trigger] env@[j2].0@ == key@ && env@[j2].1@ == w && forall|i: int|
                        0 <= i < j2 ==> env@[i].0@ != key@;
                if j2 < j {
                    assert(env@[j2].0@ != key@);
                } else if j2 > j {
                    assert(env@[j as int].0@ != key@);
                }
            }
            return Some(v);
        }
        j += 1;
    }
    proof {
        if exists|v: Seq<char>| env_value(env@, key@, v) {
            let w = choose|w: Seq<char>| env_value(env@, key@, w);
            let j2 = choose|j2: int|
                0 <= j2 < env@.len() && #[trigger] env@[j2].0@ == key@ && env@[j2].1@ == w && forall|i: int|
                    0 <= i < j2 ==> env@[i].0@ != key@;
            assert(env@[j2].0@ != key@);
        }
    }
    None
}

/// Replaces every variable reference in `token` by its value in `env`;
/// fails with the first name that `env` does not define.
pub fn substitute(token: &String, env: &Vec<(String, String)>) -> (r: Result<String, String>)
    ensures
        match r {
            Ok(s) => expand(token@, env@) == Ok::<Seq<char>, Seq<char>>(s@),
            Err(name) => expand(token@, env@) == Err::<Seq<char>, Seq<char>>(name@),
        },
{
    let s = token.as_str();
    let len = s.unicode_len();
    let mut out = String::new();
    let mut i: usize = 0;
    while i < len
        invariant
            len == s@.len(),
            s@ == token@,
            i <= len,
            expand(s@, env@) == prepend(out@, expand_from(s@, env@, i as int)),
        decreases len - i,
    {
        let c = s.get_char(i);
        let mut reference: Option<(usize, usize, usize)> = None;
        if c == '$' && i + 1 < len {
            if s.get_char(i + 1) == '{' {
                let e = scan_name(s, i + 2);
                proof {
                    lemma_name_end_bounds(s@, i + 2);
                }
                if e > i + 2 && e < len && s.get_char(e) == '}' {
                    reference = Some((i + 2, e, e + 1));
                }
            } else {
                let e = scan_name(s, i + 1);
                proof {
                    lemma_name_end_bounds(s@, i + 1);
                }
                if e > i + 1 {
                    reference = Some((i + 1, e, e));
                }
            }
        }
        match reference {
            Some((from, to, next)) => {
                let name = substring(s, from, to);
                assert(reference_at(s@, i as int) == Some((name@, next as int)));
                assert(i < next <= len);
                match lookup_value(env, &name) {
                    Some(v) => {
                        assert(expand_from(s@, env@, i as int) == prepend(v@, expand_from(s@, env@, next as int)));
                        proof {
                            lemma_prepend_assoc(out@, v@, expand_from(s@, env@, next as int));
                        }
                        let ghost before = out@;
                        out.append(v.as_str());
                        assert(out@ == before + v@);
                        i = next;
                    },
                    None => {
                        assert(expand_from(s@, env@, i as int) == Err::<Seq<char>, Seq<char>>(name@));
                        return Err(name);
                    },
                }
            },
            None => {
                assert(reference_at(s@, i as int) is None);
                assert(expand_from(s@, env@, i as int) == prepend(seq![c], expand_from(s@, env@, i + 1)));
                proof {
                    lemma_prepend_assoc(out@, seq![c], expand_from(s@, env@, i + 1));
                }
                let ghost before = out@;
                push_char(&mut out, c);
                assert(out@ =~= before + seq![c]);
                i += 1;
            },
        }
    }
    assert(out@ + Seq::<char>::empty() =~= out@);
    Ok(out)
}

/// Every token of `argv` with its variable references replaced, or the
/// first undefined name.
pub open spec fn expand_all(argv: Seq<String>, env: Seq<(String, String)>) -> Result<Seq<Seq<char>>, Seq<char>>
    decreases argv.len(),
{
    if argv.len() == 0 {
        Ok(Seq::empty())
    } else {
        match expand_all(argv.drop_last(), env) {
            Ok(done) => match expand(argv.last()@, env) {
                Ok(x) => Ok(done.push(x)),
                Err(v) => Err(v),
            },
            Err(v) => Err(v),
        }
    }
}

/// Substitutes the environment into every token of a command.
pub fn substitute_all(argv: &Vec<String>, env: &Vec<(String, String)>) -> (r: Result<Vec<String>, String>)
    ensures
        match r {
            Ok(v) => expand_all(argv@, env@) == Ok::<Seq<Seq<char>>, Seq<char>>(crate::names::views(v@)),
            Err(name) => expand_all(argv@, env@) == Err::<Seq<Seq<char>>, Seq<char>>(name@),
        },
{
    let mut out: Vec<String> = Vec::new();
    let mut k: usize = 0;
    assert(argv@.subrange(0, 0) =~= Seq::<String>::empty());
    assert(crate::names::views(out@) =~= Seq::<Seq<char>>::empty());
    while k < argv.len()
        invariant
            k <= argv.len(),
            expand_all(argv@.subrange(0, k as int), env@) == Ok::<Seq<Seq<char>>, Seq<char>>(crate::names::views(out@)),
        decreases argv.len() - k,
    {
        let ghost pre = argv@.subrange(0, k as int);
        let ghost cur = argv@.subrange(0, k as int + 1);
        assert(cur.drop_last() =~= pre);
        match substitute(&argv[k], env) {
            Ok(s) => {
                let ghost before = out@;
                out.push(s);
                assert(crate::names::views(out@) =~= crate::names::views(before).push(s@));
            },
            Err(name) => {
                let ghost full = argv@;
                proof {
                    lemma_expand_all_err_extends(full, env@, k as int + 1, name@);
                    assert(full.subrange(0, full.len() as int) =~= full);
                }
                return Err(name);
            },
        }
        k += 1;
    }
    assert(argv@.subrange(0, argv@.len() as int) =~= argv@);
    Ok(out)
}

/// Once a prefix of the tokens fails, every longer prefix fails the same way.
proof fn lemma_expand_all_err_extends(argv: Seq<String>, env: Seq<(String, String)>, k: int, name: Seq<char>)
    requires
        0 <= k <= argv.len(),
        expand_all(argv.subrange(0, k), env) == Err::<Seq<Seq<char>>, Seq<char>>(name),
    ensures
        expand_all(argv.subrange(0, argv.len() as int), env) == Err::<Seq<Seq<char>>, Seq<char>>(name),
    decreases argv.len() - k,
{
    if k < argv.len() {
        assert(argv.subrange(0, k + 1).drop_last() =~= argv.subrange(0, k));
        lemma_expand_all_err_extends(argv, env, k + 1, name);
    }
}

} // verus!
