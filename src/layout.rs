//! Where a blob lives: each (identifier, version) key names the relative
//! path `identifier/major/minor/patch`, and no two keys name the same path.
use vstd::prelude::*;
use vstd::string::{StrSliceExecFns, StringExecFns};
use crate::catalog::RecordKey;
use crate::version::Version;

verus! {

/// An identifier is a non-empty token with no path separator that is not a
/// relative path step.
pub open spec fn identifier_ok(id: Seq<char>) -> bool {
    &&& id.len() > 0
    &&& !id.contains('/')
    &&& id != seq!['.']
    &&& id != seq!['.', '.']
}

/// The character of a decimal digit.
pub open spec fn digit_char(d: nat) -> char {
    if d == 0 {
        '0'
    } else if d == 1 {
        '1'
    } else if d == 2 {
        '2'
    } else if d == 3 {
        '3'
    } else if d == 4 {
        '4'
    } else if d == 5 {
        '5'
    } else if d == 6 {
        '6'
    } else if d == 7 {
        '7'
    } else if d == 8 {
        '8'
    } else {
        '9'
    }
}

/// `n` written in decimal, without leading zeros.
pub open spec fn decimal(n: nat) -> Seq<char>
    decreases n,
{
    if n < 10 {
        seq![digit_char(n)]
    } else {
        decimal(n / 10).push(digit_char(n % 10))
    }
}

/// `a` and `b` with a path separator between them.
pub open spec fn joined(a: Seq<char>, b: Seq<char>) -> Seq<char> {
    a + seq!['/'] + b
}

/// The relative path of the blob of `id` at `v`.
pub open spec fn key_path(id: Seq<char>, v: Version) -> Seq<char> {
    joined(id, joined(decimal(v.major as nat), joined(decimal(v.minor as nat), decimal(v.patch as nat))))
}

proof fn lemma_decimal_shape(n: nat)
    ensures
        decimal(n).len() >= 1,
        !decimal(n).contains('/'),
        n >= 10 ==> decimal(n).len() >= 2,
    decreases n,
{
    if n >= 10 {
        lemma_decimal_shape(n / 10);
        assert forall|i: int| 0 <= i < decimal(n).len() implies decimal(n)[i] != '/' by {
            if i < decimal(n / 10).len() {
                assert(decimal(n)[i] == decimal(n / 10)[i]);
            }
        }
    }
}

proof fn lemma_decimal_injective(n: nat, m: nat)
    requires
        decimal(n) == decimal(m),
    ensures
        n == m,
    decreases n,
{
    lemma_decimal_shape(n);
    lemma_decimal_shape(m);
    if n >= 10 && m >= 10 {
        assert(decimal(n).last() == digit_char(n % 10));
        assert(decimal(m).last() == digit_char(m % 10));
        assert(decimal(n).drop_last() =~= decimal(n / 10));
        assert(decimal(m).drop_last() =~= decimal(m / 10));
        lemma_decimal_injective(n / 10, m / 10);
        assert(n == 10 * (n / 10) + n % 10);
        assert(m == 10 * (m / 10) + m % 10);
    } else if n < 10 && m < 10 {
        assert(decimal(n)[0] == digit_char(n));
        assert(decimal(m)[0] == digit_char(m));
    }
}

proof fn lemma_joined_split(a: Seq<char>, b: Seq<char>, c: Seq<char>, d: Seq<char>)
    requires
        joined(a, b) == joined(c, d),
        !a.contains('/'),
        !c.contains('/'),
    ensures
        a == c,
        b == d,
{
    let s = joined(a, b);
    assert(s[a.len() as int] == '/');
    assert(joined(c, d)[c.len() as int] == '/');
    if a.len() < c.len() {
        assert(s[a.len() as int] == c[a.len() as int]);
    } else if c.len() < a.len() {
        assert(s[c.len() as int] == a[c.len() as int]);
    }
    assert(a =~= s.subrange(0, a.len() as int));
    assert(c =~= s.subrange(0, c.len() as int));
    assert(b =~= s.subrange(a.len() as int + 1, s.len() as int));
    assert(d =~= s.subrange(c.len() as int + 1, s.len() as int));
}

/// Distinct keys with well-formed identifiers never share a path.
pub proof fn lemma_key_path_injective(a: RecordKey, b: RecordKey)
    requires
        identifier_ok(a.0),
        identifier_ok(b.0),
        key_path(a.0, a.1) == key_path(b.0, b.1),
    ensures
        a == b,
{
    let (x, v) = a;
    let (y, w) = b;
    lemma_decimal_shape(v.major as nat);
    lemma_decimal_shape(v.minor as nat);
    lemma_decimal_shape(w.major as nat);
    lemma_decimal_shape(w.minor as nat);
    lemma_joined_split(
        x,
        joined(decimal(v.major as nat), joined(decimal(v.minor as nat), decimal(v.patch as nat))),
        y,
        joined(decimal(w.major as nat), joined(decimal(w.minor as nat), decimal(w.patch as nat))),
    );
    lemma_joined_split(
        decimal(v.major as nat),
        joined(decimal(v.minor as nat), decimal(v.patch as nat)),
        decimal(w.major as nat),
        joined(decimal(w.minor as nat), decimal(w.patch as nat)),
    );
    lemma_joined_split(decimal(v.minor as nat), decimal(v.patch as nat), decimal(w.minor as nat), decimal(w.patch as nat));
    lemma_decimal_injective(v.major as nat, w.major as nat);
    lemma_decimal_injective(v.minor as nat, w.minor as nat);
    lemma_decimal_injective(v.patch as nat, w.patch as nat);
}

/// Whether `id` is a well-formed identifier.
pub fn valid_identifier(id: &str) -> (r: bool)
    ensures
        r == identifier_ok(id@),
{
    let n = id.unicode_len();
    if n == 0 {
        return false;
    }
    let mut i: usize = 0;
    while i < n
        invariant
            n == id@.len(),
            0 <= i <= n,
            forall|j: int| 0 <= j < i ==> id@[j] != '/',
        decreases n - i,
    {
        if id.get_char(i) == '/' {
            return false;
        }
        i += 1;
    }
    if n <= 2 && id.get_char(0) == '.' && (n == 1 || id.get_char(1) == '.') {
        assert(id@ =~= seq!['.'] || id@ =~= seq!['.', '.']);
        return false;
    }
    assert(id@ != seq!['.']) by {
        if n == 1 {
            assert(id@[0] != '.');
        }
    }
    assert(id@ != seq!['.', '.']) by {
        if n == 2 {
            assert(id@[0] != '.' || id@[1] != '.');
        }
    }
    true
}

fn digit_text(d: u64) -> (r: &'static str)
    requires
        d < 10,
    ensures
        r@ == seq![digit_char(d as nat)],
{
    proof {
        reveal_strlit("0");
        reveal_strlit("1");
        reveal_strlit("2");
        reveal_strlit("3");
        reveal_strlit("4");
        reveal_strlit("5");
        reveal_strlit("6");
        reveal_strlit("7");
        reveal_strlit("8");
        reveal_strlit("9");
    }
    match d {
        0 => "0",
        1 => "1",
        2 => "2",
        3 => "3",
        4 => "4",
        5 => "5",
        6 => "6",
        7 => "7",
        8 => "8",
        _ => "9",
    }
}

fn append_decimal(s: &mut String, n: u64)
    ensures
        final(s)@ == old(s)@ + decimal(n as nat),
    decreases n,
{
    if n >= 10 {
        append_decimal(s, n / 10);
    }
    s.append(digit_text(n % 10));
    proof {
        if n >= 10 {
            assert(old(s)@ + decimal((n / 10) as nat) + seq![digit_char((n % 10) as nat)] =~= old(s)@ + decimal(n as nat));
        } else {
            assert(decimal(n as nat) == seq![digit_char(n as nat)]);
        }
    }
}

/// The relative path of the blob of `id` at `version`.
pub fn artifact_path(id: &str, version: Version) -> (r: String)
    ensures
        r@ == key_path(id@, version),
{
    proof {
        reveal_strlit("/");
    }
    let mut s = id.to_owned();
    s.append("/");
    append_decimal(&mut s, version.major);
    s.append("/");
    append_decimal(&mut s, version.minor);
    s.append("/");
    append_decimal(&mut s, version.patch);
    assert(s@ =~= key_path(id@, version));
    s
}

} // verus!
