use vstd::prelude::*;
use crate::bytes::{CLOSE_BRACE, OPEN_BRACE, QUESTION};
use crate::escape::Escape;
use crate::format::{format_text, quoted};
use crate::scan::{is_special, lemma_literal_run, render, scan, spec_at, spec_width};
use crate::value::{QueryError, Value};

verus! {

/// A template with no `?`, `{` or `}` renders to itself with no arguments,
/// and any argument is one too many.
pub proof fn law_literal_template<E: Escape>(esc: E, t: Seq<u8>, args: Seq<Value>)
    requires
        forall|k: int| 0 <= k < t.len() ==> !is_special(#[trigger] t[k]),
    ensures
        args.len() == 0 ==> render(esc, t, args) == Ok::<Seq<u8>, QueryError>(t),
        args.len() > 0 ==> render(esc, t, args) == Err::<Seq<u8>, QueryError>(
            QueryError::TooManyArguments,
        ),
{
    lemma_literal_run(esc, t, args, 0, t.len(), 0, Seq::empty(), Seq::empty(), false, false);
    assert(Seq::<u8>::empty() + t.subrange(0, t.len() as int) =~= t);
}

/// A bare `?` bound to a string renders to the escaped string between
/// single quotes, and fails exactly where the escape fails.
pub proof fn law_auto_string<E: Escape>(esc: E, s: Vec<u8>)
    ensures
        render(esc, seq![QUESTION], seq![Value::Str(s)]) == match esc.escaped(s@) {
            Some(e) => Ok(quoted(e)),
            None => Err::<Seq<u8>, QueryError>(QueryError::EscapeFailed),
        },
{
    let t = seq![QUESTION];
    let args = seq![Value::Str(s)];
    assert(t[0] == QUESTION);
    assert(args[0] == Value::Str(s));
    match esc.escaped(s@) {
        Some(e) => {
            assert(Seq::<u8>::empty() + quoted(e) =~= quoted(e));
            assert(scan(esc, t, args, 1, 1, quoted(e), Seq::empty(), false, false) == Ok::<
                Seq<u8>,
                QueryError,
            >(quoted(e)));
        },
        None => {},
    }
}

proof fn lemma_skip_after_prefix<E: Escape>(
    esc: E,
    p: Seq<u8>,
    rest: Seq<u8>,
    args: Seq<Value>,
    j: nat,
    i: nat,
    arg: nat,
    main: Seq<u8>,
    scratch: Seq<u8>,
    inside: bool,
    rendering: bool,
)
    requires
        i <= p.len(),
        arg <= j < args.len(),
        args[j as int] is Skip,
        scan(esc, p, args.take(j as int), i, arg, main, scratch, inside, rendering) is Ok,
    ensures
        scan(esc, p + seq![QUESTION] + rest, args, i, arg, main, scratch, inside, rendering)
            == Err::<Seq<u8>, QueryError>(QueryError::SkipOutsideConditional),
    decreases p.len() - i,
{
    let t = p + seq![QUESTION] + rest;
    let a = args.take(j as int);
    assert(t[p.len() as int] == QUESTION);
    if i < p.len() {
        let c = p[i as int];
        assert(t[i as int] == c);
        if i + 1 < p.len() {
            assert(t[(i + 1) as int] == p[(i + 1) as int]);
        } else {
            assert(t[(i + 1) as int] == QUESTION);
        }
        assert(spec_at(t, i as int) == spec_at(p, i as int));
        if c == OPEN_BRACE {
            lemma_skip_after_prefix(esc, p, rest, args, j, i + 1, arg, main, Seq::empty(), true, true);
        } else if c == CLOSE_BRACE {
            let kept = if rendering {
                main + scratch
            } else {
                main
            };
            lemma_skip_after_prefix(esc, p, rest, args, j, i + 1, arg, kept, Seq::empty(), false, false);
        } else if c == QUESTION {
            assert(a[arg as int] == args[arg as int]);
            if args[arg as int] is Skip {
                lemma_skip_after_prefix(esc, p, rest, args, j, i + 1, arg + 1, main, scratch, true, false);
            } else if inside && !rendering {
                lemma_skip_after_prefix(esc, p, rest, args, j, i + 1, arg + 1, main, scratch, inside, rendering);
            } else {
                let sp = spec_at(p, i as int);
                let f = format_text(esc, args[arg as int], sp)->Ok_0;
                if inside {
                    lemma_skip_after_prefix(esc, p, rest, args, j, i + spec_width(sp), arg + 1, main, scratch + f, inside, rendering);
                } else {
                    lemma_skip_after_prefix(esc, p, rest, args, j, i + spec_width(sp), arg + 1, main + f, scratch, inside, rendering);
                }
            }
        } else if inside {
            lemma_skip_after_prefix(esc, p, rest, args, j, i + 1, arg, main, scratch.push(c), inside, rendering);
        } else {
            lemma_skip_after_prefix(esc, p, rest, args, j, i + 1, arg, main.push(c), scratch, inside, rendering);
        }
    }
}

/// The skip marker bound to a placeholder outside every block is an error:
/// where the text `p` before that `?` renders without error with the
/// arguments before it (so that it ends outside any block, having used them
/// all), the whole template fails with `SkipOutsideConditional`.
pub proof fn law_skip_outside_block<E: Escape>(
    esc: E,
    p: Seq<u8>,
    rest: Seq<u8>,
    args: Seq<Value>,
    j: nat,
)
    requires
        j < args.len(),
        args[j as int] is Skip,
        render(esc, p, args.take(j as int)) is Ok,
    ensures
        render(esc, p + seq![QUESTION] + rest, args) == Err::<Seq<u8>, QueryError>(
            QueryError::SkipOutsideConditional,
        ),
{
    lemma_skip_after_prefix(esc, p, rest, args, j, 0, 0, Seq::empty(), Seq::empty(), false, false);
}

/// No `?`, `{` or `}` in `s`.
pub open spec fn plain(s: Seq<u8>) -> bool {
    forall|k: int| 0 <= k < s.len() ==> !is_special(#[trigger] s[k])
}

/// The template `a{b?c}d`.
pub open spec fn one_block(a: Seq<u8>, b: Seq<u8>, c: Seq<u8>, d: Seq<u8>) -> Seq<u8> {
    a + seq![OPEN_BRACE] + b + seq![QUESTION] + c + seq![CLOSE_BRACE] + d
}

/// A block whose placeholder is bound to the skip marker is left out whole;
/// the text around it stays.
pub proof fn law_skipped_block_omitted<E: Escape>(
    esc: E,
    a: Seq<u8>,
    b: Seq<u8>,
    c: Seq<u8>,
    d: Seq<u8>,
)
    requires
        plain(a),
        plain(b),
        plain(c),
        plain(d),
    ensures
        render(esc, one_block(a, b, c, d), seq![Value::Skip]) == Ok::<Seq<u8>, QueryError>(a + d),
{
    let t = one_block(a, b, c, d);
    let args = seq![Value::Skip];
    let o = a.len();
    let p = o + 1 + b.len();
    let q = p + 1 + c.len();
    assert(t.len() == q + 1 + d.len());
    assert(t[o as int] == OPEN_BRACE);
    assert(t[p as int] == QUESTION);
    assert(t[q as int] == CLOSE_BRACE);
    assert(t.subrange(0, o as int) =~= a);
    assert(t.subrange((o + 1) as int, p as int) =~= b);
    assert(t.subrange((p + 1) as int, q as int) =~= c);
    assert(t.subrange((q + 1) as int, t.len() as int) =~= d);
    assert forall|k: int| 0 <= k < o implies !is_special(#[trigger] t[k]) by {
        assert(t[k] == a[k]);
    }
    assert forall|k: int| o + 1 <= k < p implies !is_special(#[trigger] t[k]) by {
        assert(t[k] == b[k - o - 1]);
    }
    assert forall|k: int| p + 1 <= k < q implies !is_special(#[trigger] t[k]) by {
        assert(t[k] == c[k - p - 1]);
    }
    assert forall|k: int| q + 1 <= k < t.len() implies !is_special(#[trigger] t[k]) by {
        assert(t[k] == d[k - q - 1]);
    }
    let e = Seq::<u8>::empty();
    lemma_literal_run(esc, t, args, 0, o, 0, e, e, false, false);
    assert(e + a =~= a);
    lemma_literal_run(esc, t, args, o + 1, p, 0, a, e, true, true);
    assert(e + b =~= b);
    lemma_literal_run(esc, t, args, p + 1, q, 1, a, b, true, false);
    lemma_literal_run(esc, t, args, q + 1, t.len(), 1, a, e, false, false);
}

} // verus!
