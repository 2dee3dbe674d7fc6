//! Semantic versions and their precedence order.
//!
//! A version is a numeric triple, an optional sequence of pre-release
//! identifiers, and optional build metadata. Precedence compares the triple
//! first; a version without pre-release identifiers is greater than one with
//! them at the same triple; pre-release identifier sequences compare
//! element-wise, numeric identifiers numerically, alphanumeric ones lexically,
//! numeric before alphanumeric, and a strict prefix before a longer sequence.
//! Build metadata never affects precedence or equality.

use core::cmp::Ordering;
use vstd::arithmetic::mul::*;
use vstd::prelude::*;

verus! {

pub const DOT_BYTE: u8 = 0x2E;

pub const ZERO_BYTE: u8 = 0x30;

/// One pre-release identifier: a run of digits, or any other run of
/// ASCII letters, digits and hyphens.
pub enum PreIdView {
    Num(Seq<u8>),
    Alpha(Seq<u8>),
}

/// The mathematical model of a semantic version. `text` records the string
/// the version was read from; neither it nor `build` takes part in
/// precedence or equality.
pub struct VersionView {
    pub major: int,
    pub minor: int,
    pub patch: int,
    pub pre: Seq<PreIdView>,
    pub build: Seq<u8>,
    pub text: Seq<char>,
}

pub open spec fn is_digit_byte(b: u8) -> bool {
    0x30 <= b <= 0x39
}

pub open spec fn all_digits(s: Seq<u8>) -> bool {
    forall|i: int| 0 <= i < s.len() ==> is_digit_byte(s[i])
}

/// A well-formed identifier is nonempty; digit runs are the `Num` variant
/// and, past one digit, carry no leading zero.
pub open spec fn id_wf(p: PreIdView) -> bool {
    match p {
        PreIdView::Num(s) => s.len() > 0 && all_digits(s) && (s.len() > 1 ==> s[0] != ZERO_BYTE),
        PreIdView::Alpha(s) => s.len() > 0 && !all_digits(s),
    }
}

pub open spec fn version_wf(v: VersionView) -> bool {
    forall|i: int| 0 <= i < v.pre.len() ==> id_wf(#[trigger] v.pre[i])
}

pub open spec fn pow10(n: nat) -> nat
    decreases n,
{
    if n == 0 {
        1
    } else {
        10 * pow10((n - 1) as nat)
    }
}

pub open spec fn digit_val(b: u8) -> nat {
    if is_digit_byte(b) {
        (b - 0x30) as nat
    } else {
        0
    }
}

/// The number a digit string denotes.
pub open spec fn digits_val(s: Seq<u8>) -> nat
    decreases s.len(),
{
    if s.len() == 0 {
        0
    } else {
        digit_val(s[0]) * pow10((s.len() - 1) as nat) + digits_val(s.skip(1))
    }
}

/// Strict lexicographic order on byte strings, by ASCII value, with a
/// strict prefix ordered before any longer string.
pub open spec fn lex_lt(a: Seq<u8>, b: Seq<u8>) -> bool
    decreases a.len(),
{
    if b.len() == 0 {
        false
    } else if a.len() == 0 {
        true
    } else if a[0] < b[0] {
        true
    } else if a[0] > b[0] {
        false
    } else {
        lex_lt(a.skip(1), b.skip(1))
    }
}

/// Precedence of single identifiers: numeric ones compare by value,
/// alphanumeric ones lexically, and numeric sorts before alphanumeric.
pub open spec fn id_lt(a: PreIdView, b: PreIdView) -> bool {
    match (a, b) {
        (PreIdView::Num(x), PreIdView::Num(y)) => digits_val(x) < digits_val(y),
        (PreIdView::Num(_), PreIdView::Alpha(_)) => true,
        (PreIdView::Alpha(_), PreIdView::Num(_)) => false,
        (PreIdView::Alpha(x), PreIdView::Alpha(y)) => lex_lt(x, y),
    }
}

/// Element-wise precedence of identifier sequences; on a tie the shorter
/// sequence comes first.
pub open spec fn ids_lt(a: Seq<PreIdView>, b: Seq<PreIdView>) -> bool
    decreases a.len(),
{
    if b.len() == 0 {
        false
    } else if a.len() == 0 {
        true
    } else if id_lt(a[0], b[0]) {
        true
    } else if id_lt(b[0], a[0]) {
        false
    } else {
        ids_lt(a.skip(1), b.skip(1))
    }
}

/// Strict precedence on versions. The numeric triple decides first; at an
/// equal triple a pre-release version comes before the plain release, and
/// two pre-release versions compare by their identifier sequences.
pub open spec fn version_lt(a: VersionView, b: VersionView) -> bool {
    if a.major != b.major {
        a.major < b.major
    } else if a.minor != b.minor {
        a.minor < b.minor
    } else if a.patch != b.patch {
        a.patch < b.patch
    } else if a.pre.len() == 0 {
        false
    } else if b.pre.len() == 0 {
        true
    } else {
        ids_lt(a.pre, b.pre)
    }
}

/// Equality for upgrade purposes: build metadata and source text are ignored.
pub open spec fn version_eq_key(a: VersionView, b: VersionView) -> bool {
    a.major == b.major && a.minor == b.minor && a.patch == b.patch && a.pre == b.pre
}

proof fn lemma_pow10_pos(n: nat)
    ensures
        pow10(n) >= 1,
    decreases n,
{
    if n > 0 {
        lemma_pow10_pos((n - 1) as nat);
    }
}

proof fn lemma_pow10_mono(a: nat, b: nat)
    requires
        a <= b,
    ensures
        pow10(a) <= pow10(b),
    decreases b,
{
    if a < b {
        lemma_pow10_mono(a, (b - 1) as nat);
        lemma_pow10_pos((b - 1) as nat);
    }
}

proof fn lemma_all_digits_skip(s: Seq<u8>)
    requires
        all_digits(s),
        s.len() > 0,
    ensures
        all_digits(s.skip(1)),
{
    assert forall|i: int| 0 <= i < s.skip(1).len() implies is_digit_byte(s.skip(1)[i]) by {
        assert(s.skip(1)[i] == s[i + 1]);
    }
}

/// A string of n digits denotes a number below 10^n.
proof fn lemma_digits_val_bound(s: Seq<u8>)
    ensures
        digits_val(s) < pow10(s.len()),
    decreases s.len(),
{
    if s.len() == 0 {
    } else {
        let p = pow10((s.len() - 1) as nat);
        lemma_digits_val_bound(s.skip(1));
        assert(digit_val(s[0]) <= 9);
        lemma_mul_inequality(digit_val(s[0]) as int, 9, p as int);
        assert(digits_val(s) <= 9 * p + digits_val(s.skip(1)));
        assert(digits_val(s.skip(1)) < p);
        assert(pow10(s.len()) == 10 * p);
    }
}

/// At equal length, lexicographic order on digit strings is numeric order.
proof fn lemma_digits_val_lex_lt(a: Seq<u8>, b: Seq<u8>)
    requires
        all_digits(a),
        all_digits(b),
        a.len() == b.len(),
        lex_lt(a, b),
    ensures
        digits_val(a) < digits_val(b),
    decreases a.len(),
{
    assert(a.len() > 0);
    let p = pow10((a.len() - 1) as nat);
    if a[0] < b[0] {
        lemma_digits_val_bound(a.skip(1));
        assert(digits_val(a) < digit_val(a[0]) * p + p);
        lemma_mul_is_distributive_add_other_way(p as int, digit_val(a[0]) as int, 1);
        assert(digit_val(a[0]) * p + p == (digit_val(a[0]) + 1) * p);
        assert(digit_val(a[0]) + 1 <= digit_val(b[0]));
        lemma_mul_inequality((digit_val(a[0]) + 1) as int, digit_val(b[0]) as int, p as int);
        assert(digit_val(b[0]) * p <= digits_val(b));
    } else {
        assert(a[0] == b[0]);
        lemma_all_digits_skip(a);
        lemma_all_digits_skip(b);
        lemma_digits_val_lex_lt(a.skip(1), b.skip(1));
    }
}

/// Absent a leading zero, a longer digit string denotes a larger number.
proof fn lemma_digits_val_len_lt(a: Seq<u8>, b: Seq<u8>)
    requires
        all_digits(a),
        all_digits(b),
        a.len() >= 1,
        a.len() < b.len(),
        b[0] != ZERO_BYTE,
    ensures
        digits_val(a) < digits_val(b),
{
    lemma_digits_val_bound(a);
    lemma_pow10_mono(a.len(), (b.len() - 1) as nat);
    let p = pow10((b.len() - 1) as nat);
    assert(digit_val(b[0]) >= 1);
    lemma_mul_inequality(1, digit_val(b[0]) as int, p as int);
    assert(1 * (p as int) == p as int) by (nonlinear_arith);
    assert(digits_val(b) >= p);
}

proof fn lemma_lex_lt_irrefl(a: Seq<u8>)
    ensures
        !lex_lt(a, a),
    decreases a.len(),
{
    if a.len() > 0 {
        lemma_lex_lt_irrefl(a.skip(1));
    }
}

proof fn lemma_lex_lt_asym(a: Seq<u8>, b: Seq<u8>)
    requires
        lex_lt(a, b),
    ensures
        !lex_lt(b, a),
    decreases a.len(),
{
    if a.len() > 0 && b.len() > 0 && a[0] == b[0] {
        lemma_lex_lt_asym(a.skip(1), b.skip(1));
    }
}

proof fn lemma_lex_lt_trans(a: Seq<u8>, b: Seq<u8>, c: Seq<u8>)
    requires
        lex_lt(a, b),
        lex_lt(b, c),
    ensures
        lex_lt(a, c),
    decreases a.len(),
{
    if a.len() > 0 && b.len() > 0 && a[0] == b[0] && c.len() > 0 && b[0] == c[0] {
        lemma_lex_lt_trans(a.skip(1), b.skip(1), c.skip(1));
    }
}

proof fn lemma_lex_lt_connex(a: Seq<u8>, b: Seq<u8>)
    requires
        !lex_lt(a, b),
        !lex_lt(b, a),
    ensures
        a == b,
    decreases a.len(),
{
    if a.len() == 0 && b.len() == 0 {
        assert(a =~= b);
    } else if a.len() > 0 && b.len() > 0 {
        assert(a[0] == b[0]);
        lemma_lex_lt_connex(a.skip(1), b.skip(1));
        assert(a.skip(1).len() == b.skip(1).len());
        assert(a.len() == b.len());
        assert forall|i: int| 0 <= i < a.len() implies a[i] == b[i] by {
            if i > 0 {
                assert(a.skip(1)[i - 1] == b.skip(1)[i - 1]);
                assert(a[i] == a.skip(1)[i - 1]);
                assert(b[i] == b.skip(1)[i - 1]);
            }
        }
        assert(a =~= b);
    }
}

/// Equal digit strings are the only ones denoting equal numbers, absent
/// leading zeros.
proof fn lemma_digits_val_injective(a: Seq<u8>, b: Seq<u8>)
    requires
        all_digits(a),
        all_digits(b),
        a.len() >= 1,
        b.len() >= 1,
        a.len() > 1 ==> a[0] != ZERO_BYTE,
        b.len() > 1 ==> b[0] != ZERO_BYTE,
        digits_val(a) == digits_val(b),
    ensures
        a == b,
{
    if a.len() < b.len() {
        lemma_digits_val_len_lt(a, b);
    } else if b.len() < a.len() {
        lemma_digits_val_len_lt(b, a);
    } else {
        if lex_lt(a, b) {
            lemma_digits_val_lex_lt(a, b);
        }
        if lex_lt(b, a) {
            lemma_digits_val_lex_lt(b, a);
        }
        lemma_lex_lt_connex(a, b);
    }
}

proof fn lemma_id_lt_asym(a: PreIdView, b: PreIdView)
    requires
        id_lt(a, b),
    ensures
        !id_lt(b, a),
{
    match (a, b) {
        (PreIdView::Alpha(x), PreIdView::Alpha(y)) => {
            lemma_lex_lt_asym(x, y);
        },
        _ => {},
    }
}

proof fn lemma_id_lt_irrefl(a: PreIdView)
    ensures
        !id_lt(a, a),
{
    match a {
        PreIdView::Alpha(x) => {
            lemma_lex_lt_irrefl(x);
        },
        PreIdView::Num(_) => {},
    }
}

proof fn lemma_id_lt_trans(a: PreIdView, b: PreIdView, c: PreIdView)
    requires
        id_lt(a, b),
        id_lt(b, c),
    ensures
        id_lt(a, c),
{
    match (a, b, c) {
        (PreIdView::Alpha(x), PreIdView::Alpha(y), PreIdView::Alpha(z)) => {
            lemma_lex_lt_trans(x, y, z);
        },
        _ => {},
    }
}

/// Identifiers neither of which precedes the other compare alike against
/// every third identifier.
proof fn lemma_id_tie_congruent(a: PreIdView, b: PreIdView)
    requires
        !id_lt(a, b),
        !id_lt(b, a),
    ensures
        forall|c: PreIdView| id_lt(a, c) == id_lt(b, c) && id_lt(c, a) == id_lt(c, b),
{
    match (a, b) {
        (PreIdView::Alpha(x), PreIdView::Alpha(y)) => {
            lemma_lex_lt_connex(x, y);
        },
        _ => {},
    }
}

proof fn lemma_ids_lt_irrefl(a: Seq<PreIdView>)
    ensures
        !ids_lt(a, a),
    decreases a.len(),
{
    if a.len() > 0 {
        lemma_id_lt_irrefl(a[0]);
        lemma_ids_lt_irrefl(a.skip(1));
    }
}

proof fn lemma_ids_lt_asym(a: Seq<PreIdView>, b: Seq<PreIdView>)
    requires
        ids_lt(a, b),
    ensures
        !ids_lt(b, a),
    decreases a.len(),
{
    if a.len() > 0 && b.len() > 0 {
        if id_lt(a[0], b[0]) {
            lemma_id_lt_asym(a[0], b[0]);
        } else if !id_lt(b[0], a[0]) {
            lemma_ids_lt_asym(a.skip(1), b.skip(1));
        }
    }
}

proof fn lemma_ids_lt_trans(a: Seq<PreIdView>, b: Seq<PreIdView>, c: Seq<PreIdView>)
    requires
        ids_lt(a, b),
        ids_lt(b, c),
    ensures
        ids_lt(a, c),
    decreases a.len(),
{
    assert(b.len() > 0 && c.len() > 0);
    if a.len() > 0 {
        let x = a[0];
        let y = b[0];
        let z = c[0];
        if id_lt(x, y) {
            if id_lt(y, z) {
                lemma_id_lt_trans(x, y, z);
            } else if id_lt(z, y) {
                assert(!ids_lt(b, c));
            } else {
                lemma_id_tie_congruent(y, z);
                assert(id_lt(x, z));
            }
        } else if id_lt(y, x) {
            assert(!ids_lt(a, b));
        } else {
            lemma_id_tie_congruent(x, y);
            if id_lt(y, z) {
                assert(id_lt(x, z));
            } else if id_lt(z, y) {
                assert(!ids_lt(b, c));
            } else {
                assert(!id_lt(x, z) && !id_lt(z, x));
                lemma_ids_lt_trans(a.skip(1), b.skip(1), c.skip(1));
            }
        }
    }
}

/// Well-formed identifier sequences that tie are equal.
proof fn lemma_ids_connex(a: Seq<PreIdView>, b: Seq<PreIdView>)
    requires
        forall|i: int| 0 <= i < a.len() ==> id_wf(#[trigger] a[i]),
        forall|i: int| 0 <= i < b.len() ==> id_wf(#[trigger] b[i]),
        !ids_lt(a, b),
        !ids_lt(b, a),
    ensures
        a == b,
    decreases a.len(),
{
    if a.len() == 0 && b.len() == 0 {
        assert(a =~= b);
    } else if a.len() > 0 && b.len() > 0 {
        assert(!id_lt(a[0], b[0]) && !id_lt(b[0], a[0]));
        match (a[0], b[0]) {
            (PreIdView::Num(x), PreIdView::Num(y)) => {
                lemma_digits_val_injective(x, y);
            },
            (PreIdView::Alpha(x), PreIdView::Alpha(y)) => {
                lemma_lex_lt_connex(x, y);
            },
            _ => {},
        }
        assert(a[0] == b[0]);
        assert forall|i: int| 0 <= i < a.skip(1).len() implies id_wf(#[trigger] a.skip(1)[i]) by {
            assert(a.skip(1)[i] == a[i + 1]);
        }
        assert forall|i: int| 0 <= i < b.skip(1).len() implies id_wf(#[trigger] b.skip(1)[i]) by {
            assert(b.skip(1)[i] == b[i + 1]);
        }
        lemma_ids_connex(a.skip(1), b.skip(1));
        assert forall|i: int| 0 <= i < a.len() implies a[i] == b[i] by {
            if i > 0 {
                assert(a[i] == a.skip(1)[i - 1]);
                assert(b[i] == b.skip(1)[i - 1]);
            }
        }
        assert(a =~= b);
    }
}

/// Precedence is irreflexive.
pub proof fn lemma_version_lt_irrefl(a: VersionView)
    ensures
        !version_lt(a, a),
{
    if a.pre.len() > 0 {
        lemma_ids_lt_irrefl(a.pre);
    }
}

/// Precedence is asymmetric.
pub proof fn lemma_version_lt_asym(a: VersionView, b: VersionView)
    requires
        version_lt(a, b),
    ensures
        !version_lt(b, a),
{
    if a.major == b.major && a.minor == b.minor && a.patch == b.patch && a.pre.len() > 0
        && b.pre.len() > 0 {
        lemma_ids_lt_asym(a.pre, b.pre);
    }
}

/// Precedence is transitive.
pub proof fn lemma_version_lt_trans(a: VersionView, b: VersionView, c: VersionView)
    requires
        version_lt(a, b),
        version_lt(b, c),
    ensures
        version_lt(a, c),
{
    if a.major == b.major && b.major == c.major && a.minor == b.minor && b.minor == c.minor
        && a.patch == b.patch && b.patch == c.patch {
        if a.pre.len() > 0 && b.pre.len() > 0 && c.pre.len() > 0 {
            lemma_ids_lt_trans(a.pre, b.pre, c.pre);
        }
    }
}

/// Well-formed versions that neither precedes the other are equal for
/// upgrade purposes: precedence totally orders valid versions.
pub proof fn lemma_version_order_connex(a: VersionView, b: VersionView)
    requires
        version_wf(a),
        version_wf(b),
        !version_lt(a, b),
        !version_lt(b, a),
    ensures
        version_eq_key(a, b),
{
    if a.major == b.major && a.minor == b.minor && a.patch == b.patch {
        if a.pre.len() == 0 && b.pre.len() == 0 {
            assert(a.pre =~= b.pre);
        } else if a.pre.len() > 0 && b.pre.len() > 0 {
            lemma_ids_connex(a.pre, b.pre);
        }
    }
}

/// One pre-release identifier of a concrete version.
#[derive(Debug)]
pub enum PreId {
    Num(Vec<u8>),
    Alpha(Vec<u8>),
}

impl View for PreId {
    type V = PreIdView;

    open spec fn view(&self) -> PreIdView {
        match self {
            PreId::Num(v) => PreIdView::Num(v@),
            PreId::Alpha(v) => PreIdView::Alpha(v@),
        }
    }
}

pub open spec fn pre_views(ids: Seq<PreId>) -> Seq<PreIdView> {
    ids.map_values(|p: PreId| p@)
}

/// A parsed semantic version. Values are only built by [`Version::parse`],
/// so every identifier is well-formed.
#[derive(Debug)]
pub struct Version {
    major: u64,
    minor: u64,
    patch: u64,
    pre: Vec<PreId>,
    build: Vec<u8>,
    text: String,
}

impl Version {
    pub closed spec fn as_view(self) -> VersionView {
        VersionView {
            major: self.major as int,
            minor: self.minor as int,
            patch: self.patch as int,
            pre: pre_views(self.pre@),
            build: self.build@,
            text: self.text@,
        }
    }

    #[verifier::type_invariant]
    spec fn inv(self) -> bool {
        version_wf(self@)
    }

    pub fn major(&self) -> (r: u64)
        ensures
            r as int == self@.major,
    {
        self.major
    }

    pub fn minor(&self) -> (r: u64)
        ensures
            r as int == self@.minor,
    {
        self.minor
    }

    pub fn patch(&self) -> (r: u64)
        ensures
            r as int == self@.patch,
    {
        self.patch
    }

    pub fn is_prerelease(&self) -> (r: bool)
        ensures
            r == (self@.pre.len() > 0),
    {
        self.pre.len() > 0
    }

    /// The string this version was parsed from.
    pub fn text(&self) -> (r: &str)
        ensures
            r@ == self@.text,
    {
        self.text.as_str()
    }
}

impl View for Version {
    type V = VersionView;

    open spec fn view(&self) -> VersionView {
        self.as_view()
    }
}

fn bytes_cmp_lex(a: &Vec<u8>, b: &Vec<u8>) -> (r: Ordering)
    ensures
        (r == Ordering::Less) == lex_lt(a@, b@),
        (r == Ordering::Greater) == lex_lt(b@, a@),
        (r == Ordering::Equal) == (a@ == b@),
{
    let n = if a.len() < b.len() {
        a.len()
    } else {
        b.len()
    };
    proof {
        assert(a@.skip(0) =~= a@);
        assert(b@.skip(0) =~= b@);
    }
    let mut i: usize = 0;
    while i < n
        invariant
            0 <= i <= n,
            n <= a.len(),
            n <= b.len(),
            n == if a.len() < b.len() {
                a@.len()
            } else {
                b@.len()
            },
            forall|k: int| 0 <= k < i ==> a@[k] == b@[k],
            lex_lt(a@, b@) == lex_lt(a@.skip(i as int), b@.skip(i as int)),
            lex_lt(b@, a@) == lex_lt(b@.skip(i as int), a@.skip(i as int)),
        decreases n - i,
    {
        let x = a[i];
        let y = b[i];
        if x < y {
            return Ordering::Less;
        }
        if x > y {
            return Ordering::Greater;
        }
        proof {
            assert(a@.skip(i as int).skip(1) =~= a@.skip(i as int + 1));
            assert(b@.skip(i as int).skip(1) =~= b@.skip(i as int + 1));
        }
        i = i + 1;
    }
    if a.len() == b.len() {
        proof {
            assert(a@ =~= b@);
        }
        Ordering::Equal
    } else if a.len() < b.len() {
        Ordering::Less
    } else {
        Ordering::Greater
    }
}

fn id_cmp(a: &PreId, b: &PreId) -> (r: Ordering)
    requires
        id_wf(a@),
        id_wf(b@),
    ensures
        (r == Ordering::Less) == id_lt(a@, b@),
        (r == Ordering::Greater) == id_lt(b@, a@),
        (r == Ordering::Equal) == (a@ == b@),
{
    match (a, b) {
        (PreId::Num(x), PreId::Num(y)) => {
            if x.len() < y.len() {
                proof {
                    lemma_digits_val_len_lt(x@, y@);
                }
                Ordering::Less
            } else if y.len() < x.len() {
                proof {
                    lemma_digits_val_len_lt(y@, x@);
                }
                Ordering::Greater
            } else {
                let r = bytes_cmp_lex(x, y);
                proof {
                    if lex_lt(x@, y@) {
                        lemma_digits_val_lex_lt(x@, y@);
                    }
                    if lex_lt(y@, x@) {
                        lemma_digits_val_lex_lt(y@, x@);
                    }
                }
                r
            }
        },
        (PreId::Num(_), PreId::Alpha(_)) => Ordering::Less,
        (PreId::Alpha(_), PreId::Num(_)) => Ordering::Greater,
        (PreId::Alpha(x), PreId::Alpha(y)) => bytes_cmp_lex(x, y),
    }
}

fn ids_cmp(a: &Vec<PreId>, b: &Vec<PreId>) -> (r: Ordering)
    requires
        forall|k: int| 0 <= k < a@.len() ==> id_wf(#[trigger] a@[k]@),
        forall|k: int| 0 <= k < b@.len() ==> id_wf(#[trigger] b@[k]@),
    ensures
        (r == Ordering::Less) == ids_lt(pre_views(a@), pre_views(b@)),
        (r == Ordering::Greater) == ids_lt(pre_views(b@), pre_views(a@)),
        (r == Ordering::Equal) == (pre_views(a@) == pre_views(b@)),
{
    let ghost av = pre_views(a@);
    let ghost bv = pre_views(b@);
    let n = if a.len() < b.len() {
        a.len()
    } else {
        b.len()
    };
    proof {
        assert(av.skip(0) =~= av);
        assert(bv.skip(0) =~= bv);
    }
    let mut i: usize = 0;
    while i < n
        invariant
            0 <= i <= n,
            n <= a.len(),
            n <= b.len(),
            n == if a.len() < b.len() {
                a@.len()
            } else {
                b@.len()
            },
            av == pre_views(a@),
            bv == pre_views(b@),
            av.len() == a@.len(),
            bv.len() == b@.len(),
            forall|k: int| 0 <= k < a@.len() ==> id_wf(#[trigger] a@[k]@),
            forall|k: int| 0 <= k < b@.len() ==> id_wf(#[trigger] b@[k]@),
            forall|k: int| 0 <= k < i ==> av[k] == bv[k],
            ids_lt(av, bv) == ids_lt(av.skip(i as int), bv.skip(i as int)),
            ids_lt(bv, av) == ids_lt(bv.skip(i as int), av.skip(i as int)),
        decreases n - i,
    {
        let r = id_cmp(&a[i], &b[i]);
        match r {
            Ordering::Equal => {
                proof {
                    assert(av[i as int] == bv[i as int]);
                    match av[i as int] {
                        PreIdView::Num(_) => {},
                        PreIdView::Alpha(z) => {
                            lemma_lex_lt_irrefl(z);
                        },
                    }
                    assert(!id_lt(av[i as int], bv[i as int]));
                    assert(av.skip(i as int).skip(1) =~= av.skip(i as int + 1));
                    assert(bv.skip(i as int).skip(1) =~= bv.skip(i as int + 1));
                }
                i = i + 1;
            },
            Ordering::Less => {
                return Ordering::Less;
            },
            Ordering::Greater => {
                return Ordering::Greater;
            },
        }
    }
    if a.len() == b.len() {
        proof {
            assert(av =~= bv);
        }
        Ordering::Equal
    } else if a.len() < b.len() {
        Ordering::Less
    } else {
        Ordering::Greater
    }
}

/// Three-way precedence comparison; build metadata and source text are
/// ignored.
pub fn version_cmp(a: &Version, b: &Version) -> (r: Ordering)
    ensures
        (r == Ordering::Less) == version_lt(a@, b@),
        (r == Ordering::Greater) == version_lt(b@, a@),
        (r == Ordering::Equal) == version_eq_key(a@, b@),
{
    proof {
        use_type_invariant(a);
        use_type_invariant(b);
    }
    if a.major != b.major {
        if a.major < b.major {
            Ordering::Less
        } else {
            Ordering::Greater
        }
    } else if a.minor != b.minor {
        if a.minor < b.minor {
            Ordering::Less
        } else {
            Ordering::Greater
        }
    } else if a.patch != b.patch {
        if a.patch < b.patch {
            Ordering::Less
        } else {
            Ordering::Greater
        }
    } else if a.pre.len() == 0 && b.pre.len() == 0 {
        proof {
            assert(a@.pre =~= b@.pre);
        }
        Ordering::Equal
    } else if a.pre.len() == 0 {
        Ordering::Greater
    } else if b.pre.len() == 0 {
        Ordering::Less
    } else {
        proof {
            assert forall|k: int| 0 <= k < a.pre@.len() implies id_wf(#[trigger] a.pre@[k]@) by {
                assert(a@.pre[k] == a.pre@[k]@);
            }
            assert forall|k: int| 0 <= k < b.pre@.len() implies id_wf(#[trigger] b.pre@[k]@) by {
                assert(b@.pre[k] == b.pre@[k]@);
            }
        }
        ids_cmp(&a.pre, &b.pre)
    }
}

/// Strict precedence test, the `version_lt` order on the models.
pub fn precedes(a: &Version, b: &Version) -> (r: bool)
    ensures
        r == version_lt(a@, b@),
{
    match version_cmp(a, b) {
        Ordering::Less => true,
        _ => false,
    }
}

/// What `semver::Version::parse` yields for a string: the numeric triple and
/// the raw pre-release and build byte strings, or `None` for a malformed
/// string. The result depends on the string alone.
pub uninterp spec fn semver_parts(s: Seq<char>) -> Option<(u64, u64, u64, Seq<u8>, Seq<u8>)>;

/// `[i, j)` spans a maximal dot-free run of `b`.
pub open spec fn is_segment(b: Seq<u8>, i: int, j: int) -> bool {
    &&& 0 <= i <= j <= b.len()
    &&& (i == 0 || b[i - 1] == DOT_BYTE)
    &&& (j == b.len() || b[j] == DOT_BYTE)
    &&& (forall|k: int| i <= k < j ==> b[k] != DOT_BYTE)
}

/// The shape `semver::Version::parse` guarantees of a pre-release string:
/// every dot-separated segment is nonempty, and a segment of two or more
/// digits does not start with zero.
pub open spec fn pre_bytes_ok(b: Seq<u8>) -> bool {
    b.len() == 0 || forall|i: int, j: int|
        #[trigger] is_segment(b, i, j) ==> i < j && (j - i > 1 && all_digits(b.subrange(i, j))
            ==> b[i] != ZERO_BYTE)
}

/// Relies on `semver::Version::parse`: it accepts exactly the semantic
/// version grammar and returns the parsed fields; its pre-release string is
/// made of nonempty dot-separated identifiers over ASCII digits, letters and
/// hyphens, where an all-digit identifier has no leading zero.
#[verifier::external_body]
fn semver_parse_raw(s: &str) -> (r: Option<(u64, u64, u64, Vec<u8>, Vec<u8>)>)
    ensures
        match r {
            Option::None => semver_parts(s@) is None,
            Option::Some(t) => {
                &&& semver_parts(s@) == Option::Some((t.0, t.1, t.2, t.3@, t.4@))
                &&& pre_bytes_ok(t.3@)
            },
        },
{
    match semver::Version::parse(s) {
        Ok(v) => Some(
            (
                v.major,
                v.minor,
                v.patch,
                v.pre.as_str().as_bytes().to_vec(),
                v.build.as_str().as_bytes().to_vec(),
            ),
        ),
        Err(_) => None,
    }
}

/// Whether `version` satisfies the requirement written as `req`, by the
/// registry's matching rules.
pub uninterp spec fn req_satisfied_by(
    req: Seq<char>,
    major: u64,
    minor: u64,
    patch: u64,
    pre: Seq<u8>,
) -> bool;

/// Relies on `semver::VersionReq::parse` and `semver::VersionReq::matches`:
/// both are deterministic in their text arguments, matching never reads build
/// metadata, and a malformed requirement is taken to match nothing.
#[verifier::external_body]
fn req_matches_raw(req: &str, major: u64, minor: u64, patch: u64, pre: &Vec<u8>) -> (r: bool)
    ensures
        r == req_satisfied_by(req@, major, minor, patch, pre@),
{
    let parsed = match semver::VersionReq::parse(req) {
        Ok(q) => q,
        Err(_) => return false,
    };
    let pre_ids = match core::str::from_utf8(pre) {
        Ok(p) => semver::Prerelease::new(p).unwrap_or(semver::Prerelease::EMPTY),
        Err(_) => semver::Prerelease::EMPTY,
    };
    parsed.matches(
        &semver::Version { major, minor, patch, pre: pre_ids, build: semver::BuildMetadata::EMPTY },
    )
}

/// Length of the leading dot-free run.
pub open spec fn seg_len(b: Seq<u8>) -> nat
    decreases b.len(),
{
    if b.len() == 0 {
        0
    } else if b[0] == DOT_BYTE {
        0
    } else {
        1 + seg_len(b.skip(1))
    }
}

/// An all-digit identifier is numeric; any other is alphanumeric.
pub open spec fn classify_id(s: Seq<u8>) -> PreIdView {
    if all_digits(s) {
        PreIdView::Num(s)
    } else {
        PreIdView::Alpha(s)
    }
}

/// The identifiers of a pre-release byte string, split on dots.
pub open spec fn split_pre(b: Seq<u8>) -> Seq<PreIdView>
    decreases b.len(),
{
    if b.len() == 0 {
        Seq::empty()
    } else {
        let n = seg_len(b) as int;
        if n >= b.len() {
            seq![classify_id(b)]
        } else {
            seq![classify_id(b.take(n))] + split_pre(b.skip(n + 1))
        }
    }
}

proof fn lemma_seg_len_of(s: Seq<u8>, m: int)
    requires
        0 <= m <= s.len(),
        forall|k: int| 0 <= k < m ==> s[k] != DOT_BYTE,
        m < s.len() ==> s[m] == DOT_BYTE,
    ensures
        seg_len(s) == m,
    decreases m,
{
    if m == 0 {
    } else {
        assert(s[0] != DOT_BYTE);
        lemma_seg_len_of(s.skip(1), m - 1);
    }
}

fn split_pre_ids(b: &Vec<u8>) -> (r: Vec<PreId>)
    ensures
        pre_views(r@) == split_pre(b@),
        pre_bytes_ok(b@) ==> forall|k: int| 0 <= k < r@.len() ==> id_wf(#[trigger] r@[k]@),
{
    let mut ids: Vec<PreId> = Vec::new();
    if b.len() == 0 {
        proof {
            assert(pre_views(ids@) =~= split_pre(b@));
        }
        return ids;
    }
    let mut p: usize = 0;
    proof {
        assert(b@.skip(0) =~= b@);
        assert(pre_views(ids@) + split_pre(b@.skip(0)) =~= split_pre(b@));
    }
    while p < b.len()
        invariant
            0 <= p <= b@.len(),
            b@.len() > 0,
            p < b@.len() ==> (p == 0 || b@[p - 1] == DOT_BYTE),
            pre_views(ids@) + split_pre(b@.skip(p as int)) =~= split_pre(b@),
            pre_bytes_ok(b@) ==> forall|k: int| 0 <= k < ids@.len() ==> id_wf(
                #[trigger] ids@[k]@,
            ),
        decreases b@.len() - p,
    {
        let ghost pre_ids = ids@;
        let mut q: usize = p;
        let mut seg: Vec<u8> = Vec::new();
        let mut digits_only = true;
        proof {
            assert(seg@ =~= b@.subrange(p as int, p as int));
        }
        while q < b.len() && b[q] != DOT_BYTE
            invariant
                p <= q <= b@.len(),
                seg@ =~= b@.subrange(p as int, q as int),
                digits_only == all_digits(b@.subrange(p as int, q as int)),
                forall|k: int| p <= k < q ==> b@[k] != DOT_BYTE,
            decreases b@.len() - q,
        {
            let c = b[q];
            let ghost old_seg = seg@;
            seg.push(c);
            digits_only = digits_only && 0x30 <= c && c <= 0x39;
            proof {
                assert(seg@ =~= b@.subrange(p as int, q as int + 1));
                if all_digits(old_seg) && is_digit_byte(c) {
                    assert forall|k: int| 0 <= k < seg@.len() implies is_digit_byte(seg@[k]) by {
                        if k < old_seg.len() {
                            assert(seg@[k] == old_seg[k]);
                        }
                    }
                }
                if !(all_digits(old_seg) && is_digit_byte(c)) {
                    if !all_digits(old_seg) {
                        let w = choose|w: int|
                            0 <= w < old_seg.len() && !is_digit_byte(old_seg[w]);
                        assert(!is_digit_byte(seg@[w]));
                    } else {
                        assert(!is_digit_byte(seg@[seg@.len() - 1]));
                    }
                    assert(!all_digits(seg@));
                }
            }
            q = q + 1;
        }
        let id = if digits_only {
            PreId::Num(seg)
        } else {
            PreId::Alpha(seg)
        };
        proof {
            assert(q == b@.len() || b@[q as int] == DOT_BYTE);
            assert(is_segment(b@, p as int, q as int));
            let rest = b@.skip(p as int);
            assert forall|k: int| 0 <= k < q - p implies rest[k] != DOT_BYTE by {
                assert(rest[k] == b@[p + k]);
            }
            if q < b@.len() {
                assert(rest[q - p] == b@[q as int]);
            }
            lemma_seg_len_of(rest, q - p);
            assert(rest.take(q - p) =~= b@.subrange(p as int, q as int));
            assert(id@ == classify_id(b@.subrange(p as int, q as int)));
            if (q - p) as int == rest.len() {
                assert(split_pre(rest) == seq![classify_id(rest)]);
                assert(rest =~= b@.subrange(p as int, q as int));
            } else {
                assert(rest.skip(q - p + 1) =~= b@.skip(q as int + 1));
                assert(split_pre(rest) == seq![classify_id(rest.take(q - p))] + split_pre(
                    b@.skip(q as int + 1),
                ));
            }
            if pre_bytes_ok(b@) {
                assert(p < q);
                assert(q - p > 1 && all_digits(b@.subrange(p as int, q as int)) ==> b@[p as int]
                    != ZERO_BYTE);
                assert(b@.subrange(p as int, q as int)[0] == b@[p as int]);
                assert(id_wf(id@));
            }
        }
        ids.push(id);
        proof {
            assert(pre_views(ids@) =~= pre_views(pre_ids).push(id@));
            if q < b@.len() {
                assert(pre_views(ids@) + split_pre(b@.skip(q as int + 1)) =~= pre_views(pre_ids)
                    + split_pre(b@.skip(p as int)));
            } else {
                assert(b@.skip(q as int) =~= Seq::<u8>::empty());
                assert(pre_views(ids@) + split_pre(b@.skip(q as int)) =~= pre_views(pre_ids)
                    + split_pre(b@.skip(p as int)));
            }
        }
        if q < b.len() {
            p = q + 1;
        } else {
            p = q;
        }
    }
    proof {
        assert(b@.skip(p as int) =~= Seq::<u8>::empty());
        assert(split_pre(b@.skip(p as int)) =~= Seq::<PreIdView>::empty());
        assert(pre_views(ids@) =~= pre_views(ids@) + split_pre(b@.skip(p as int)));
    }
    ids
}

/// The model of the version a string parses to, or `None` where the string
/// is not a valid semantic version.
pub open spec fn parsed_version_of(s: Seq<char>) -> Option<VersionView> {
    match semver_parts(s) {
        Option::None => Option::None,
        Option::Some(t) => Option::Some(
            VersionView {
                major: t.0 as int,
                minor: t.1 as int,
                patch: t.2 as int,
                pre: split_pre(t.3),
                build: t.4,
                text: s,
            },
        ),
    }
}

fn copy_bytes(v: &Vec<u8>) -> (r: Vec<u8>)
    ensures
        r@ == v@,
{
    let mut r: Vec<u8> = Vec::new();
    let mut i: usize = 0;
    while i < v.len()
        invariant
            0 <= i <= v@.len(),
            r@ =~= v@.take(i as int),
        decreases v@.len() - i,
    {
        r.push(v[i]);
        proof {
            assert(r@ =~= v@.take(i as int + 1));
        }
        i = i + 1;
    }
    proof {
        assert(v@.take(v@.len() as int) =~= v@);
    }
    r
}

impl PreId {
    fn duplicate(&self) -> (r: PreId)
        ensures
            r@ == self@,
    {
        match self {
            PreId::Num(v) => PreId::Num(copy_bytes(v)),
            PreId::Alpha(v) => PreId::Alpha(copy_bytes(v)),
        }
    }
}

/// Whether the version written as `s` satisfies the requirement written as
/// `req`; `false` where `s` does not parse.
pub open spec fn spec_version_matches(s: Seq<char>, req: Seq<char>) -> bool {
    match semver_parts(s) {
        Option::None => false,
        Option::Some(t) => req_satisfied_by(req, t.0, t.1, t.2, t.3),
    }
}

fn assemble_version(
    major: u64,
    minor: u64,
    patch: u64,
    pre: Vec<u8>,
    build: Vec<u8>,
    s: &str,
) -> (v: Version)
    requires
        pre_bytes_ok(pre@),
    ensures
        v@ == (VersionView {
            major: major as int,
            minor: minor as int,
            patch: patch as int,
            pre: split_pre(pre@),
            build: build@,
            text: s@,
        }),
{
    let ids = split_pre_ids(&pre);
    let text = s.to_owned();
    let v = Version { major, minor, patch, pre: ids, build, text };
    proof {
        assert(v@.pre == split_pre(pre@));
        assert forall|k: int| 0 <= k < v@.pre.len() implies id_wf(#[trigger] v@.pre[k]) by {
            assert(v@.pre[k] == v.pre@[k]@);
        }
    }
    v
}

impl Version {
    /// Parse a version string; `None` exactly on strings the semantic
    /// version grammar rejects.
    pub fn parse(s: &str) -> (r: Option<Version>)
        ensures
            match r {
                Option::None => parsed_version_of(s@) is None,
                Option::Some(v) => parsed_version_of(s@) == Option::Some(v@),
            },
    {
        match semver_parse_raw(s) {
            Option::None => Option::None,
            Option::Some((major, minor, patch, pre, build)) => Option::Some(
                assemble_version(major, minor, patch, pre, build, s),
            ),
        }
    }

    /// Parse a version string and test it against a requirement in one step;
    /// `None` exactly on strings the semantic version grammar rejects.
    pub fn parse_and_match(s: &str, req: &str) -> (r: Option<(Version, bool)>)
        ensures
            match r {
                Option::None => parsed_version_of(s@) is None,
                Option::Some(t) => parsed_version_of(s@) == Option::Some(t.0@) && t.1
                    == spec_version_matches(s@, req@),
            },
    {
        match semver_parse_raw(s) {
            Option::None => Option::None,
            Option::Some((major, minor, patch, pre, build)) => {
                let m = req_matches_raw(req, major, minor, patch, &pre);
                Option::Some((assemble_version(major, minor, patch, pre, build, s), m))
            },
        }
    }

    /// A structurally equal copy.
    pub fn duplicate(&self) -> (r: Version)
        ensures
            r@ == self@,
    {
        proof {
            use_type_invariant(self);
        }
        let mut pre: Vec<PreId> = Vec::new();
        let mut i: usize = 0;
        while i < self.pre.len()
            invariant
                0 <= i <= self.pre@.len(),
                pre_views(pre@) =~= pre_views(self.pre@).take(i as int),
            decreases self.pre@.len() - i,
        {
            let ghost prefix = pre@;
            pre.push(self.pre[i].duplicate());
            proof {
                assert(pre_views(pre@) =~= pre_views(prefix).push(self.pre@[i as int]@));
                assert(pre_views(pre@) =~= pre_views(self.pre@).take(i as int + 1));
            }
            i = i + 1;
        }
        proof {
            assert(pre_views(self.pre@).take(self.pre@.len() as int) =~= pre_views(self.pre@));
        }
        let r = Version {
            major: self.major,
            minor: self.minor,
            patch: self.patch,
            pre,
            build: copy_bytes(&self.build),
            text: self.text.clone(),
        };
        proof {
            assert(r@ == self@);
        }
        r
    }
}

impl core::cmp::PartialEq for Version {
    fn eq(&self, other: &Version) -> (r: bool) {
        match version_cmp(self, other) {
            Ordering::Equal => true,
            _ => false,
        }
    }
}

impl vstd::std_specs::cmp::PartialEqSpecImpl for Version {
    open spec fn obeys_eq_spec() -> bool {
        true
    }

    open spec fn eq_spec(&self, other: &Version) -> bool {
        version_eq_key(self@, other@)
    }
}

impl core::cmp::PartialOrd for Version {
    fn partial_cmp(&self, other: &Version) -> (r: Option<Ordering>) {
        Some(version_cmp(self, other))
    }
}

impl vstd::std_specs::cmp::PartialOrdSpecImpl for Version {
    open spec fn obeys_partial_cmp_spec() -> bool {
        true
    }

    open spec fn partial_cmp_spec(&self, other: &Version) -> Option<Ordering> {
        Some(
            if version_lt(self@, other@) {
                Ordering::Less
            } else if version_lt(other@, self@) {
                Ordering::Greater
            } else {
                Ordering::Equal
            },
        )
    }
}

} // verus!
