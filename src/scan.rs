use vstd::prelude::*;
use vstd::slice::slice_subrange;
use crate::bytes::{
    push_all, push_range, CLOSE_BRACE, HASH, LOWER_A, LOWER_D, LOWER_F, OPEN_BRACE, QUESTION,
};
use crate::escape::Escape;
use crate::format::{format_text, format_value, FormatSpec};
use crate::value::{QueryError, Value};

verus! {

/// One of `?`, `{`, `}`: the bytes that the scanner stops at.
pub open spec fn is_special(b: u8) -> bool {
    b == QUESTION || b == OPEN_BRACE || b == CLOSE_BRACE
}

/// The format picked by the byte after the `?` at `i`.
pub open spec fn spec_at(t: Seq<u8>, i: int) -> FormatSpec {
    if i < t.len() - 1 {
        let b = t[i + 1];
        if b == LOWER_D {
            FormatSpec::Integer
        } else if b == LOWER_F {
            FormatSpec::Float
        } else if b == LOWER_A {
            FormatSpec::Array
        } else if b == HASH {
            FormatSpec::Field
        } else {
            FormatSpec::Auto
        }
    } else {
        FormatSpec::Auto
    }
}

/// How many template bytes a placeholder of this format takes.
pub open spec fn spec_width(s: FormatSpec) -> nat {
    if s == FormatSpec::Auto {
        1
    } else {
        2
    }
}

/// The rest of a scan from byte `i`, with `arg` arguments consumed, `main`
/// and `scratch` the two buffers, `inside` whether a `{` is open and
/// `rendering` whether the open block is still to be kept.
pub open spec fn scan<E: Escape>(
    esc: E,
    t: Seq<u8>,
    args: Seq<Value>,
    i: nat,
    arg: nat,
    main: Seq<u8>,
    scratch: Seq<u8>,
    inside: bool,
    rendering: bool,
) -> Result<Seq<u8>, QueryError>
    decreases t.len() - i,
{
    if i >= t.len() {
        if inside {
            Err(QueryError::UnterminatedConditional)
        } else if arg < args.len() {
            Err(QueryError::TooManyArguments)
        } else {
            Ok(main)
        }
    } else {
        let c = t[i as int];
        if c == OPEN_BRACE {
            if inside {
                Err(QueryError::NestedConditional)
            } else {
                scan(esc, t, args, i + 1, arg, main, Seq::empty(), true, true)
            }
        } else if c == CLOSE_BRACE {
            if !inside {
                Err(QueryError::UnmatchedClose)
            } else {
                let kept = if rendering {
                    main + scratch
                } else {
                    main
                };
                scan(esc, t, args, i + 1, arg, kept, Seq::empty(), false, false)
            }
        } else if c == QUESTION {
            if arg >= args.len() {
                Err(QueryError::TooFewArguments)
            } else if args[arg as int] is Skip {
                if !inside {
                    Err(QueryError::SkipOutsideConditional)
                } else {
                    scan(esc, t, args, i + 1, arg + 1, main, scratch, true, false)
                }
            } else if inside && !rendering {
                scan(esc, t, args, i + 1, arg + 1, main, scratch, inside, rendering)
            } else {
                let sp = spec_at(t, i as int);
                match format_text(esc, args[arg as int], sp) {
                    Err(x) => Err(x),
                    Ok(f) => if inside {
                        scan(esc, t, args, i + spec_width(sp), arg + 1, main, scratch + f, inside, rendering)
                    } else {
                        scan(esc, t, args, i + spec_width(sp), arg + 1, main + f, scratch, inside, rendering)
                    },
                }
            }
        } else if inside {
            scan(esc, t, args, i + 1, arg, main, scratch.push(c), inside, rendering)
        } else {
            scan(esc, t, args, i + 1, arg, main.push(c), scratch, inside, rendering)
        }
    }
}

/// The text that template `t` renders to with arguments `args`.
pub open spec fn render<E: Escape>(esc: E, t: Seq<u8>, args: Seq<Value>) -> Result<
    Seq<u8>,
    QueryError,
> {
    scan(esc, t, args, 0, 0, Seq::empty(), Seq::empty(), false, false)
}

/// A run of bytes with no `?`, `{` or `}` is copied to the active buffer.
pub proof fn lemma_literal_run<E: Escape>(
    esc: E,
    t: Seq<u8>,
    args: Seq<Value>,
    r: nat,
    i: nat,
    arg: nat,
    main: Seq<u8>,
    scratch: Seq<u8>,
    inside: bool,
    rendering: bool,
)
    requires
        r <= i <= t.len(),
        forall|k: int| r <= k < i ==> !is_special(#[trigger] t[k]),
    ensures
        scan(esc, t, args, r, arg, main, scratch, inside, rendering) == if inside {
            scan(esc, t, args, i, arg, main, scratch + t.subrange(r as int, i as int), inside, rendering)
        } else {
            scan(esc, t, args, i, arg, main + t.subrange(r as int, i as int), scratch, inside, rendering)
        },
    decreases i - r,
{
    if r < i {
        let c = t[r as int];
        assert(!is_special(c));
        if inside {
            lemma_literal_run(esc, t, args, r + 1, i, arg, main, scratch.push(c), inside, rendering);
            assert(scratch.push(c) + t.subrange((r + 1) as int, i as int) =~= scratch + t.subrange(
                r as int,
                i as int,
            ));
        } else {
            lemma_literal_run(esc, t, args, r + 1, i, arg, main.push(c), scratch, inside, rendering);
            assert(main.push(c) + t.subrange((r + 1) as int, i as int) =~= main + t.subrange(
                r as int,
                i as int,
            ));
        }
    } else {
        assert(main + t.subrange(r as int, i as int) =~= main);
        assert(scratch + t.subrange(r as int, i as int) =~= scratch);
    }
}

/// Relies on memchr::memchr3: the index of the first byte of `hay` that
/// equals one of the three needles, or `None` where there is none.
#[verifier::external_body]
fn first_of_three(n1: u8, n2: u8, n3: u8, hay: &[u8]) -> (r: Option<usize>)
    ensures
        match r {
            Some(k) => k < hay@.len() && (hay@[k as int] == n1 || hay@[k as int] == n2
                || hay@[k as int] == n3) && forall|j: int|
                0 <= j < k ==> #[trigger] hay@[j] != n1 && hay@[j] != n2 && hay@[j] != n3,
            None => forall|j: int|
                0 <= j < hay@.len() ==> #[trigger] hay@[j] != n1 && hay@[j] != n2 && hay@[j]
                    != n3,
        },
{
    memchr::memchr3(n1, n2, n3, hay)
}

/// The index of the first `?`, `{` or `}` at or after `from`.
fn next_special(t: &[u8], from: usize) -> (r: Option<usize>)
    requires
        from <= t@.len(),
    ensures
        match r {
            Some(i) => from <= i < t@.len() && is_special(t@[i as int]) && forall|k: int|
                from <= k < i ==> !is_special(#[trigger] t@[k]),
            None => forall|k: int| from <= k < t@.len() ==> !is_special(#[trigger] t@[k]),
        },
{
    let rest = slice_subrange(t, from, t.len());
    match first_of_three(QUESTION, OPEN_BRACE, CLOSE_BRACE, rest) {
        Some(k) => {
            assert forall|j: int| from <= j < from + k implies !is_special(#[trigger] t@[j]) by {
                assert(t@[j] == rest@[j - from]);
            }
            assert(t@[from + k] == rest@[k as int]);
            Some(from + k)
        },
        None => {
            assert forall|j: int| from <= j < t@.len() implies !is_special(#[trigger] t@[j]) by {
                assert(t@[j] == rest@[j - from]);
            }
            None
        },
    }
}

/// The format picked by the byte after the `?` at `i`, and the width of
/// the placeholder.
fn spec_after(t: &[u8], i: usize) -> (r: (FormatSpec, usize))
    requires
        i < t@.len(),
    ensures
        r.0 == spec_at(t@, i as int),
        r.1 == spec_width(r.0),
{
    if i < t.len() - 1 {
        let b = t[i + 1];
        if b == LOWER_D {
            (FormatSpec::Integer, 2)
        } else if b == LOWER_F {
            (FormatSpec::Float, 2)
        } else if b == LOWER_A {
            (FormatSpec::Array, 2)
        } else if b == HASH {
            (FormatSpec::Field, 2)
        } else {
            (FormatSpec::Auto, 1)
        }
    } else {
        (FormatSpec::Auto, 1)
    }
}

/// A rendered query: the template itself where it holds no `?`, `{` or `}`,
/// else a new buffer.
#[derive(Debug)]
pub enum Rendered<'a> {
    Unchanged(&'a [u8]),
    Built(Vec<u8>),
}

impl<'a> Rendered<'a> {
    pub open spec fn view(&self) -> Seq<u8> {
        match self {
            Rendered::Unchanged(t) => t@,
            Rendered::Built(b) => b@,
        }
    }

    /// The rendered bytes.
    pub fn as_bytes(&self) -> (r: &[u8])
        ensures
            r@ == self@,
    {
        match self {
            Rendered::Unchanged(t) => t,
            Rendered::Built(b) => b.as_slice(),
        }
    }
}

/// The view of a rendering result.
pub open spec fn rendered_of(r: Result<Rendered, QueryError>) -> Result<Seq<u8>, QueryError> {
    match r {
        Ok(q) => Ok(q@),
        Err(e) => Err(e),
    }
}

/// Renders query templates, escaping strings through `escaper`.
pub struct QueryParser<E: Escape> {
    pub escaper: E,
}

impl<E: Escape> QueryParser<E> {
    pub fn new(escaper: E) -> (r: Self)
        ensures
            r.escaper == escaper,
    {
        QueryParser { escaper }
    }

    /// The marker that, bound to a placeholder inside `{ ... }`, drops the block.
    pub fn skip(&self) -> (r: Value)
        ensures
            r is Skip,
    {
        Value::Skip
    }

    /// Renders `query` with `args`, one argument per `?`, in order.
    pub fn build_query<'a>(&self, query: &'a [u8], args: &Vec<Value>) -> (r: Result<
        Rendered<'a>,
        QueryError,
    >)
        ensures
            rendered_of(r) == render(self.escaper, query@, args@),
            (forall|k: int| 0 <= k < query@.len() ==> !is_special(#[trigger] query@[k])) ==> (
            r matches Ok(Rendered::Unchanged(_)) || r is Err),
    {
        let ghost esc = self.escaper;
        let ghost t = query@;
        let mut main: Vec<u8> = Vec::new();
        let mut scratch: Vec<u8> = Vec::new();
        let mut inside = false;
        let mut rendering = false;
        let mut cut: usize = 0;
        let mut arg: usize = 0;
        if next_special(query, 0).is_none() {
            proof {
                lemma_literal_run(esc, t, args@, 0, t.len(), 0, main@, scratch@, false, false);
                assert(main@ + t.subrange(0, t.len() as int) =~= t);
            }
            if args.len() > 0 {
                return Err(QueryError::TooManyArguments);
            }
            return Ok(Rendered::Unchanged(query));
        }
        loop
            invariant
                cut <= query@.len(),
                arg <= args@.len(),
                esc == self.escaper,
                t == query@,
                scan(esc, t, args@, cut as nat, arg as nat, main@, scratch@, inside, rendering)
                    == render(esc, t, args@),
                exists|k: int| 0 <= k < t.len() && is_special(#[trigger] t[k]),
            decreases query@.len() - cut,
        {
            match next_special(query, cut) {
                None => {
                    proof {
                        lemma_literal_run(
                            esc,
                            t,
                            args@,
                            cut as nat,
                            t.len(),
                            arg as nat,
                            main@,
                            scratch@,
                            inside,
                            rendering,
                        );
                    }
                    if inside {
                        return Err(QueryError::UnterminatedConditional);
                    }
                    if arg < args.len() {
                        return Err(QueryError::TooManyArguments);
                    }
                    push_range(&mut main, query, cut, query.len());
                    return Ok(Rendered::Built(main));
                },
                Some(i) => {
                    proof {
                        lemma_literal_run(
                            esc,
                            t,
                            args@,
                            cut as nat,
                            i as nat,
                            arg as nat,
                            main@,
                            scratch@,
                            inside,
                            rendering,
                        );
                    }
                    if inside {
                        push_range(&mut scratch, query, cut, i);
                    } else {
                        push_range(&mut main, query, cut, i);
                    }
                    let c = query[i];
                    if c == OPEN_BRACE {
                        if inside {
                            return Err(QueryError::NestedConditional);
                        }
                        inside = true;
                        rendering = true;
                        scratch = Vec::new();
                        cut = i + 1;
                    } else if c == CLOSE_BRACE {
                        if !inside {
                            return Err(QueryError::UnmatchedClose);
                        }
                        if rendering {
                            push_all(&mut main, scratch.as_slice());
                        }
                        inside = false;
                        rendering = false;
                        scratch = Vec::new();
                        cut = i + 1;
                    } else {
                        if arg >= args.len() {
                            return Err(QueryError::TooFewArguments);
                        }
                        let v = &args[arg];
                        arg = arg + 1;
                        if let Value::Skip = v {
                            if !inside {
                                return Err(QueryError::SkipOutsideConditional);
                            }
                            rendering = false;
                            cut = i + 1;
                        } else if inside && !rendering {
                            cut = i + 1;
                        } else {
                            let (sp, width) = spec_after(query, i);
                            match format_value(&self.escaper, v, sp) {
                                Err(x) => {
                                    return Err(x);
                                },
                                Ok(f) => {
                                    if inside {
                                        push_all(&mut scratch, f.as_slice());
                                    } else {
                                        push_all(&mut main, f.as_slice());
                                    }
                                },
                            }
                            cut = i + width;
                        }
                    }
                },
            }
        }
    }
}

} // verus!
