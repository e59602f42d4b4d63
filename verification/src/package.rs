//! Package identities and the decimal names under which chunk files are kept.

use vstd::prelude::*;

verus! {

/// Identity of a package: a short name and a version string. Two identities
/// are equal exactly when both components are equal; the serialized form is
/// `{name}-{version}`.
#[derive(Debug)]
pub struct PackageId {
    pub name: String,
    pub version: String,
}

impl PackageId {
    /// The serialized form `{name}-{version}` of this identity.
    pub open spec fn full_name_spec(self) -> Seq<char> {
        self.name@ + "-"@ + self.version@
    }

    pub fn new(name: String, version: String) -> (r: PackageId)
        ensures
            r.name == name,
            r.version == version,
    {
        PackageId { name, version }
    }

    /// Render the identity as `{name}-{version}`.
    pub fn full_name(&self) -> (r: String)
        ensures
            r@ == self.full_name_spec(),
    {
        let mut s = self.name.clone();
        s.append("-");
        s.append(self.version.as_str());
        s
    }
}

impl Clone for PackageId {
    fn clone(&self) -> (r: Self)
        ensures
            r == *self,
    {
        PackageId { name: self.name.clone(), version: self.version.clone() }
    }
}

impl PartialEq for PackageId {
    fn eq(&self, other: &Self) -> (r: bool) {
        self.name == other.name && self.version == other.version
    }
}

impl vstd::std_specs::cmp::PartialEqSpecImpl for PackageId {
    open spec fn obeys_eq_spec() -> bool {
        true
    }

    open spec fn eq_spec(&self, other: &Self) -> bool {
        self.name@ == other.name@ && self.version@ == other.version@
    }
}

/// Whether two package identities name the same package: both the name and
/// the version agree.
pub open spec fn same_id(a: PackageId, b: PackageId) -> bool {
    a.name@ == b.name@ && a.version@ == b.version@
}

/// Whether `c` is an ASCII decimal digit.
pub open spec fn is_dec_digit(c: char) -> bool {
    '0' as u32 <= c as u32 && c as u32 <= '9' as u32
}

/// Numeric value of an ASCII decimal digit.
pub open spec fn digit_val(c: char) -> nat {
    (c as u32 - '0' as u32) as nat
}

/// The ASCII digit with value `d` (meaningful for `d < 10`).
pub open spec fn dec_digit(d: nat) -> char {
    if d == 0 {
        '0'
    } else if d == 1 {
        '1'
    } else if d == 2 {
        '2'
    } else if d == 3 {
        '3'
    } else if d == 4 {
        '4'
    } else if d == 5 {
        '5'
    } else if d == 6 {
        '6'
    } else if d == 7 {
        '7'
    } else if d == 8 {
        '8'
    } else {
        '9'
    }
}

/// The canonical decimal rendering of `n`, without leading zeros.
pub open spec fn dec_str(n: nat) -> Seq<char>
    decreases n,
{
    if n < 10 {
        seq![dec_digit(n)]
    } else {
        dec_str(n / 10).push(dec_digit(n % 10))
    }
}

/// The numeric value of a sequence of decimal digits, most significant first.
pub open spec fn dec_value(s: Seq<char>) -> nat
    decreases s.len(),
{
    if s.len() == 0 {
        0
    } else {
        dec_value(s.drop_last()) * 10 + digit_val(s.last())
    }
}

/// Whether `s` is a well-formed chunk-file name: a nonempty run of decimal
/// digits whose value fits in a `u64`.
pub open spec fn valid_index_name(s: Seq<char>) -> bool {
    &&& s.len() > 0
    &&& forall|i: int| 0 <= i < s.len() ==> is_dec_digit(#[trigger] s[i])
    &&& dec_value(s) <= u64::MAX
}

/// A one-character string for the digit with value `d`.
fn digit_str(d: u64) -> (r: &'static str)
    requires
        d < 10,
    ensures
        r@ =~= seq![dec_digit(d as nat)],
        is_dec_digit(dec_digit(d as nat)),
        digit_val(dec_digit(d as nat)) == d,
{
    proof {
        reveal_strlit("0");
        reveal_strlit("1");
        reveal_strlit("2");
        reveal_strlit("3");
        reveal_strlit("4");
        reveal_strlit("5");
        reveal_strlit("6");
        reveal_strlit("7");
        reveal_strlit("8");
        reveal_strlit("9");
    }
    if d == 0 {
        "0"
    } else if d == 1 {
        "1"
    } else if d == 2 {
        "2"
    } else if d == 3 {
        "3"
    } else if d == 4 {
        "4"
    } else if d == 5 {
        "5"
    } else if d == 6 {
        "6"
    } else if d == 7 {
        "7"
    } else if d == 8 {
        "8"
    } else {
        "9"
    }
}

/// Render `n` in decimal, the name under which a chunk with index `n` is kept.
pub fn u64_to_dec_string(n: u64) -> (r: String)
    ensures
        r@ == dec_str(n as nat),
    decreases n,
{
    if n < 10 {
        digit_str(n).to_owned()
    } else {
        let mut s = u64_to_dec_string(n / 10);
        s.append(digit_str(n % 10));
        proof {
            assert(s@ =~= dec_str((n / 10) as nat).push(dec_digit((n % 10) as nat)));
        }
        s
    }
}

/// Every character of `dec_str(n)` is a decimal digit and the rendering is
/// nonempty: a rendered index is always a well-formed chunk-file name.
pub proof fn lemma_dec_str_valid(n: nat)
    requires
        n <= u64::MAX,
    ensures
        valid_index_name(dec_str(n)),
        dec_value(dec_str(n)) == n,
    decreases n,
{
    if n < 10 {
        assert(dec_str(n) =~= seq![dec_digit(n)]);
        assert(dec_str(n).drop_last() =~= Seq::<char>::empty());
        assert(dec_value(Seq::<char>::empty()) == 0);
        assert(dec_str(n).last() == dec_digit(n));
    } else {
        lemma_dec_str_valid(n / 10);
        let s = dec_str(n);
        assert(s.drop_last() =~= dec_str(n / 10));
        assert(s.last() == dec_digit(n % 10));
        assert(forall|i: int|
            0 <= i < s.len() ==> is_dec_digit(#[trigger] s[i])) by {
            assert(forall|i: int|
                0 <= i < s.len() - 1 ==> s[i] == #[trigger] dec_str(n / 10)[i]);
        }
    }
}

/// Digit values grow a parsed prefix: extending a digit string never
/// lowers its value.
proof fn lemma_dec_value_prefix(s: Seq<char>, i: int)
    requires
        0 <= i <= s.len(),
    ensures
        dec_value(s.subrange(0, i)) <= dec_value(s),
    decreases s.len() - i,
{
    if i < s.len() {
        let t = s.subrange(0, i + 1);
        assert(t.drop_last() =~= s.subrange(0, i));
        assert(dec_value(s.subrange(0, i)) <= dec_value(t));
        lemma_dec_value_prefix(s, i + 1);
        assert(s.subrange(0, s.len() as int) =~= s);
    } else {
        assert(s.subrange(0, i) =~= s);
    }
}

/// Parse a chunk-file name as a decimal index. Returns `Ok` exactly when the
/// name is a nonempty run of decimal digits whose value fits in a `u64`, and
/// then yields that value; every other name is rejected.
pub fn parse_index(name: &str) -> (r: Result<u64, String>)
    ensures
        r is Ok <==> valid_index_name(name@),
        r matches Ok(v) ==> v as nat == dec_value(name@),
{
    let len = name.unicode_len();
    if len == 0 {
        return Err("empty chunk file name".to_owned());
    }
    let mut acc: u64 = 0;
    let mut i: usize = 0;
    while i < len
        invariant
            0 < len == name@.len(),
            0 <= i <= len,
            forall|j: int| 0 <= j < i ==> is_dec_digit(#[trigger] name@[j]),
            acc as nat == dec_value(name@.subrange(0, i as int)),
        decreases len - i,
    {
        let c = name.get_char(i);
        let v = c as u32;
        if v < '0' as u32 || v > '9' as u32 {
            return Err("chunk file name is not a decimal index".to_owned());
        }
        let d = (v - '0' as u32) as u64;
        let stepped = match acc.checked_mul(10) {
            Some(m) => m.checked_add(d),
            None => None,
        };
        match stepped {
            Some(next) => {
                acc = next;
                proof {
                    assert(name@.subrange(0, i + 1).drop_last() =~= name@.subrange(
                        0,
                        i as int,
                    ));
                }
                i = i + 1;
            },
            None => {
                proof {
                    assert(name@.subrange(0, i + 1).drop_last() =~= name@.subrange(
                        0,
                        i as int,
                    ));
                    assert(dec_value(name@.subrange(0, i + 1)) > u64::MAX);
                    lemma_dec_value_prefix(name@, i + 1);
                }
                return Err("chunk index does not fit in a u64".to_owned());
            },
        }
    }
    proof {
        assert(name@.subrange(0, len as int) =~= name@);
    }
    Ok(acc)
}

/// Rendering an index and parsing it back yields the index: the names the
/// agent gives its chunk files always parse to the chunk's own index.
pub proof fn lemma_index_name_round_trip(n: u64)
    ensures
        valid_index_name(dec_str(n as nat)),
        dec_value(dec_str(n as nat)) == n,
{
    lemma_dec_str_valid(n as nat);
}

} // verus!
