//! The platform model: an (architecture, operating-system) pair in the
//! canonical `arch-os` textual form.

use vstd::prelude::*;
use vstd::string::*;

verus! {

/// Why a platform string was rejected.
#[derive(Debug, Clone, Copy, PartialEq, Eq)]
pub enum ParseError {
    /// The string does not consist of exactly two dash-separated tokens.
    BadShape,
    /// The architecture token is not a known identifier.
    UnknownArch,
    /// The operating-system token is not a known identifier.
    UnknownOs,
}

/// Whether `s` is a recognized architecture identifier.
pub uninterp spec fn arch_known(s: Seq<char>) -> bool;

/// Whether `s` is a recognized operating-system identifier.
pub uninterp spec fn os_known(s: Seq<char>) -> bool;

/// Relies on `platforms::Arch::from_str`: it accepts exactly the canonical
/// architecture identifiers, and none of those identifiers contains a dash.
#[verifier::external_body]
fn is_known_arch(s: &str) -> (b: bool)
    ensures
        b == arch_known(s@),
        b ==> dash_free(s@),
{
    <platforms::Arch as core::str::FromStr>::from_str(s).is_ok()
}

/// Relies on `platforms::Os::from_str`: it accepts exactly the canonical
/// operating-system identifiers, and none of those identifiers contains a dash.
#[verifier::external_body]
fn is_known_os(s: &str) -> (b: bool)
    ensures
        b == os_known(s@),
        b ==> dash_free(s@),
{
    <platforms::Os as core::str::FromStr>::from_str(s).is_ok()
}

/// True when no character of `s` is a dash.
pub open spec fn dash_free(s: Seq<char>) -> bool {
    forall|i: int| 0 <= i < s.len() ==> s[i] != '-'
}

/// The number of dashes in `s`.
pub open spec fn dash_count(s: Seq<char>) -> nat
    decreases s.len(),
{
    if s.len() == 0 {
        0
    } else {
        dash_count(s.drop_last()) + (if s.last() == '-' {
            1nat
        } else {
            0nat
        })
    }
}

/// The mathematical value of a platform: its two identifier texts.
#[verifier::ext_equal]
pub ghost struct PlatformId {
    pub arch: Seq<char>,
    pub os: Seq<char>,
}

/// An (architecture, operating-system) pair. Equality is structural; the
/// canonical text form is `arch-os`.
pub struct Platform {
    pub arch: String,
    pub os: String,
}

impl View for Platform {
    type V = PlatformId;

    open spec fn view(&self) -> PlatformId {
        PlatformId { arch: self.arch@, os: self.os@ }
    }
}

impl Clone for Platform {
    fn clone(&self) -> (r: Self)
        ensures
            r == *self,
    {
        Platform { arch: self.arch.clone(), os: self.os.clone() }
    }
}

impl PartialEq for Platform {
    fn eq(&self, other: &Self) -> (r: bool) {
        self.arch == other.arch && self.os == other.os
    }
}

impl vstd::std_specs::cmp::PartialEqSpecImpl for Platform {
    open spec fn obeys_eq_spec() -> bool {
        true
    }

    open spec fn eq_spec(&self, other: &Self) -> bool {
        self@ == other@
    }
}

/// What parsing a platform string yields: with exactly one dash, the two
/// tokens around it, each of which must be a known identifier.
pub open spec fn spec_parse(s: Seq<char>) -> Result<PlatformId, ParseError> {
    if dash_count(s) != 1 {
        Err(ParseError::BadShape)
    } else {
        let d = choose|d: int| 0 <= d < s.len() && s[d] == '-';
        let arch = s.subrange(0, d);
        let os = s.subrange(d + 1, s.len() as int);
        if !arch_known(arch) {
            Err(ParseError::UnknownArch)
        } else if !os_known(os) {
            Err(ParseError::UnknownOs)
        } else {
            Ok(PlatformId { arch, os })
        }
    }
}

impl Platform {
    /// A platform is well formed when both identifiers are known and, as the
    /// known identifiers are, free of dashes.
    pub open spec fn wf(self) -> bool {
        arch_known(self.arch@) && os_known(self.os@) && dash_free(self.arch@) && dash_free(
            self.os@,
        )
    }

    /// The canonical text `arch-os`.
    pub open spec fn spec_str(self) -> Seq<char> {
        self.arch@ + seq!['-'] + self.os@
    }

    /// Renders the platform in its canonical `arch-os` form.
    pub fn as_text(&self) -> (r: String)
        ensures
            r@ == self.spec_str(),
    {
        proof {
            reveal_strlit("-");
        }
        let mut out = self.arch.clone();
        out.append("-");
        out.append(self.os.as_str());
        proof {
            assert(out@ =~= self.spec_str());
        }
        out
    }

    /// Parses the canonical `arch-os` form: exactly two dash-separated
    /// tokens, each a known identifier.
    pub fn parse(s: &str) -> (r: Result<Platform, ParseError>)
        ensures
            match r {
                Ok(p) => spec_parse(s@) == Ok::<PlatformId, ParseError>(p@) && p.wf(),
                Err(e) => spec_parse(s@) == Err::<PlatformId, ParseError>(e),
            },
    {
        let n = s.unicode_len();
        let mut i: usize = 0;
        let mut dash_idx: usize = 0;
        let mut count: usize = 0;
        while i < n
            invariant
                0 <= i <= n,
                n == s@.len(),
                count == dash_count(s@.take(i as int)),
                count <= i,
                count > 0 ==> dash_idx < i && s@[dash_idx as int] == '-',
            decreases n - i,
        {
            proof {
                assert(s@.take(i + 1).drop_last() =~= s@.take(i as int));
                assert(s@.take(i + 1).last() == s@[i as int]);
            }
            if s.get_char(i) == '-' {
                if count == 0 {
                    dash_idx = i;
                }
                count = count + 1;
            }
            i = i + 1;
        }
        proof {
            assert(s@.take(n as int) =~= s@);
        }
        if count != 1 {
            return Err(ParseError::BadShape);
        }
        let d = dash_idx;
        proof {
            let dd = choose|dd: int| 0 <= dd < s@.len() && s@[dd] == '-';
            if dd != d {
                lemma_two_dashes(s@, if dd < d {
                    dd
                } else {
                    d as int
                }, if dd < d {
                    d as int
                } else {
                    dd
                });
            }
            assert(dd == d as int);
        }
        let arch_tok = s.substring_char(0, d);
        let os_tok = s.substring_char(d + 1, n);
        proof {
            assert forall|j: int| 0 <= j < arch_tok@.len() implies arch_tok@[j] != '-' by {
                if arch_tok@[j] == '-' {
                    lemma_two_dashes(s@, j, d as int);
                }
            }
            assert forall|j: int| 0 <= j < os_tok@.len() implies os_tok@[j] != '-' by {
                if os_tok@[j] == '-' {
                    lemma_two_dashes(s@, d as int, d + 1 + j);
                }
            }
        }
        if !is_known_arch(arch_tok) {
            return Err(ParseError::UnknownArch);
        }
        if !is_known_os(os_tok) {
            return Err(ParseError::UnknownOs);
        }
        Ok(Platform { arch: arch_tok.to_owned(), os: os_tok.to_owned() })
    }
}

/// A dash at `i` contributes to the count.
proof fn lemma_one_dash(s: Seq<char>, i: int)
    requires
        0 <= i < s.len(),
        s[i] == '-',
    ensures
        dash_count(s) >= 1,
    decreases s.len(),
{
    if i < s.len() - 1 {
        lemma_one_dash(s.drop_last(), i);
    }
}

/// Two dashes at distinct positions give a count of at least two.
proof fn lemma_two_dashes(s: Seq<char>, i: int, j: int)
    requires
        0 <= i < j < s.len(),
        s[i] == '-',
        s[j] == '-',
    ensures
        dash_count(s) >= 2,
    decreases s.len(),
{
    if j == s.len() - 1 {
        lemma_one_dash(s.drop_last(), i);
    } else {
        lemma_two_dashes(s.drop_last(), i, j);
    }
}

/// Concatenation adds the dash counts.
proof fn lemma_dash_count_concat(a: Seq<char>, b: Seq<char>)
    ensures
        dash_count(a + b) == dash_count(a) + dash_count(b),
    decreases b.len(),
{
    if b.len() == 0 {
        assert(a + b =~= a);
    } else {
        assert((a + b).drop_last() =~= a + b.drop_last());
        lemma_dash_count_concat(a, b.drop_last());
    }
}

/// A dash-free text has no dashes to count.
proof fn lemma_dash_free_count_zero(s: Seq<char>)
    requires
        dash_free(s),
    ensures
        dash_count(s) == 0,
    decreases s.len(),
{
    if s.len() > 0 {
        lemma_dash_free_count_zero(s.drop_last());
    }
}

/// Law: parsing the canonical text of a well-formed platform yields that
/// platform back.
pub proof fn lemma_parse_round_trip(p: Platform)
    requires
        p.wf(),
    ensures
        spec_parse(p.spec_str()) == Ok::<PlatformId, ParseError>(p@),
{
    let s = p.spec_str();
    let a = p.arch@;
    let o = p.os@;
    lemma_dash_free_count_zero(a);
    lemma_dash_free_count_zero(o);
    lemma_dash_count_concat(a, seq!['-']);
    lemma_dash_count_concat(a + seq!['-'], o);
    assert(dash_count(a + seq!['-']) == 1) by {
        assert((a + seq!['-']).drop_last() =~= a);
        assert((a + seq!['-']).last() == '-');
    }
    assert(dash_count(s) == 1);
    assert(s[a.len() as int] == '-');
    let d = choose|d: int| 0 <= d < s.len() && s[d] == '-';
    if d != a.len() {
        if d < a.len() {
            lemma_two_dashes(s, d, a.len() as int);
        } else {
            lemma_two_dashes(s, a.len() as int, d);
        }
    }
    assert(s.subrange(0, d) =~= a);
    assert(s.subrange(d + 1, s.len() as int) =~= o);
    assert(spec_parse(s)->Ok_0 =~= p@);
}

} // verus!
