use vstd::prelude::*;

verus! {

/// Makes a string safe to place between single quotes in the target
/// language. `escaped` states what `escape` returns; `None` is a refusal.
pub trait Escape {
    spec fn escaped(&self, s: Seq<u8>) -> Option<Seq<u8>>;

    fn escape(&self, s: &[u8]) -> (r: Option<Vec<u8>>)
        ensures
            r is Some <==> self.escaped(s@) is Some,
            r is Some ==> r->0@ == self.escaped(s@)->0,
    ;
}

/// The escape that leaves every string as it is.
pub struct IdentityEscape;

impl Escape for IdentityEscape {
    open spec fn escaped(&self, s: Seq<u8>) -> Option<Seq<u8>> {
        Some(s)
    }

    fn escape(&self, s: &[u8]) -> (r: Option<Vec<u8>>) {
        let mut out: Vec<u8> = Vec::new();
        crate::bytes::push_all(&mut out, s);
        Some(out)
    }
}

pub const BACKSLASH: u8 = 92;

/// What one byte becomes under backslash escaping: NUL, newline, carriage
/// return, backslash, both quotes and Ctrl-Z get a backslash before a letter
/// or themselves; every other byte stays.
pub open spec fn escape_byte(b: u8) -> Seq<u8> {
    if b == 0 {
        seq![BACKSLASH, 48u8]
    } else if b == 10 {
        seq![BACKSLASH, 110u8]
    } else if b == 13 {
        seq![BACKSLASH, 114u8]
    } else if b == 26 {
        seq![BACKSLASH, 90u8]
    } else if b == BACKSLASH || b == 39 || b == 34 {
        seq![BACKSLASH, b]
    } else {
        seq![b]
    }
}

/// Backslash escaping of a whole string, byte by byte.
pub open spec fn backslash_escaped(s: Seq<u8>) -> Seq<u8>
    decreases s.len(),
{
    if s.len() == 0 {
        Seq::empty()
    } else {
        backslash_escaped(s.drop_last()) + escape_byte(s.last())
    }
}

/// Backslash escaping of NUL, newline, carriage return, backslash, both
/// quotes and Ctrl-Z. It matches a MySQL connection under an ASCII-compatible
/// character set only where the `NO_BACKSLASH_ESCAPES` mode is off (that mode
/// doubles quotes instead); it suits tests rather than a live connection.
pub struct BackslashEscape;

impl Escape for BackslashEscape {
    open spec fn escaped(&self, s: Seq<u8>) -> Option<Seq<u8>> {
        Some(backslash_escaped(s))
    }

    fn escape(&self, s: &[u8]) -> (r: Option<Vec<u8>>) {
        let mut out: Vec<u8> = Vec::new();
        let mut i: usize = 0;
        while i < s.len()
            invariant
                i <= s@.len(),
                out@ == backslash_escaped(s@.subrange(0, i as int)),
            decreases s@.len() - i,
        {
            let b = s[i];
            let ghost before = out@;
            if b == 0 {
                out.push(BACKSLASH);
                out.push(48u8);
            } else if b == 10 {
                out.push(BACKSLASH);
                out.push(110u8);
            } else if b == 13 {
                out.push(BACKSLASH);
                out.push(114u8);
            } else if b == 26 {
                out.push(BACKSLASH);
                out.push(90u8);
            } else if b == BACKSLASH || b == 39 || b == 34 {
                out.push(BACKSLASH);
                out.push(b);
            } else {
                out.push(b);
            }
            assert(out@ =~= before + escape_byte(b));
            assert(s@.subrange(0, i + 1).drop_last() =~= s@.subrange(0, i as int));
            i = i + 1;
        }
        assert(s@.subrange(0, s@.len() as int) =~= s@);
        Some(out)
    }
}

/// Tells whether two byte strings are equal.
pub fn bytes_equal(a: &[u8], b: &[u8]) -> (r: bool)
    ensures
        r == (a@ == b@),
{
    if a.len() != b.len() {
        return false;
    }
    let mut i: usize = 0;
    while i < a.len()
        invariant
            a@.len() == b@.len(),
            i <= a@.len(),
            forall|k: int| 0 <= k < i ==> a@[k] == b@[k],
        decreases a@.len() - i,
    {
        if a[i] != b[i] {
            return false;
        }
        i = i + 1;
    }
    assert(a@ =~= b@);
    true
}

/// The escaped form that the first pair whose raw string is `s` gives.
pub open spec fn table_lookup(pairs: Seq<(Vec<u8>, Vec<u8>)>, s: Seq<u8>) -> Option<Seq<u8>>
    decreases pairs.len(),
{
    if pairs.len() == 0 {
        None
    } else if pairs[0].0@ == s {
        Some(pairs[0].1@)
    } else {
        table_lookup(pairs.drop_first(), s)
    }
}

/// An escape given as a table of `(raw, escaped)` pairs that a host filled
/// ahead of rendering, for instance from a database connection. A string
/// with no entry is refused.
pub struct EscapeTable {
    pub pairs: Vec<(Vec<u8>, Vec<u8>)>,
}

impl EscapeTable {
    pub fn new() -> (r: Self)
        ensures
            r.pairs@.len() == 0,
    {
        EscapeTable { pairs: Vec::new() }
    }

    /// Records that `raw` escapes to `escaped`.
    pub fn insert(&mut self, raw: Vec<u8>, escaped: Vec<u8>)
        ensures
            final(self).pairs@ == old(self).pairs@.push((raw, escaped)),
    {
        self.pairs.push((raw, escaped));
    }
}

impl Escape for EscapeTable {
    open spec fn escaped(&self, s: Seq<u8>) -> Option<Seq<u8>> {
        table_lookup(self.pairs@, s)
    }

    fn escape(&self, s: &[u8]) -> (r: Option<Vec<u8>>) {
        let mut i: usize = 0;
        assert(self.pairs@.subrange(0, self.pairs@.len() as int) =~= self.pairs@);
        while i < self.pairs.len()
            invariant
                i <= self.pairs@.len(),
                table_lookup(self.pairs@, s@) == table_lookup(
                    self.pairs@.subrange(i as int, self.pairs@.len() as int),
                    s@,
                ),
            decreases self.pairs@.len() - i,
        {
            let ghost tail = self.pairs@.subrange(i as int, self.pairs@.len() as int);
            assert(tail[0] == self.pairs@[i as int]);
            assert(tail.drop_first() =~= self.pairs@.subrange(i + 1, self.pairs@.len() as int));
            if bytes_equal(self.pairs[i].0.as_slice(), s) {
                let mut out: Vec<u8> = Vec::new();
                crate::bytes::push_all(&mut out, self.pairs[i].1.as_slice());
                return Some(out);
            }
            i = i + 1;
        }
        None
    }
}

} // verus!
