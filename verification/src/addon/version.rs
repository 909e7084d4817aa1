//! The version value: one ordering domain for the two legal encodings of a
//! pack version (a dotted semantic-versioning string, or a fixed 3-element
//! numeric array). Both collapse into `AddonVersion`, whose ordering follows
//! semantic-versioning precedence, with build metadata as a final tie-break
//! so that the order is total and agrees with equality.
use vstd::prelude::*;

verus! {

/// Outcome of comparing two version values.
#[derive(Debug, Clone, Copy, PartialEq, Eq, Structural)]
pub enum VersionOrdering {
    Less,
    Equal,
    Greater,
}

/// The version string did not follow semantic-versioning grammar.
#[derive(Debug)]
pub struct InvalidVersion;

/// Mathematical model of a version: the numeric triple plus the pre-release
/// and build identifier lists, each identifier a sequence of characters.
#[verifier::ext_equal]
pub ghost struct VersionView {
    pub major: int,
    pub minor: int,
    pub patch: int,
    pub pre: Seq<Seq<char>>,
    pub build: Seq<Seq<char>>,
}

pub open spec fn is_digit(c: char) -> bool {
    '0' as int <= c as int && c as int <= '9' as int
}

pub open spec fn is_letter(c: char) -> bool {
    ('A' as int <= c as int && c as int <= 'Z' as int) || ('a' as int <= c as int && c as int
        <= 'z' as int)
}

/// Characters legal inside a pre-release or build identifier.
pub open spec fn is_ident_char(c: char) -> bool {
    is_digit(c) || is_letter(c) || c == '-'
}

pub open spec fn seq_all_digits(s: Seq<char>) -> bool {
    forall|i: int| 0 <= i < s.len() ==> is_digit(s[i])
}

pub open spec fn wf_ident(s: Seq<char>) -> bool {
    s.len() > 0 && forall|i: int| 0 <= i < s.len() ==> is_ident_char(s[i])
}

/// A numeric pre-release identifier must not carry leading zeros.
pub open spec fn wf_pre_ident(s: Seq<char>) -> bool {
    wf_ident(s) && (seq_all_digits(s) ==> (s.len() == 1 || s[0] != '0'))
}

pub open spec fn wf_build_ident(s: Seq<char>) -> bool {
    wf_ident(s)
}

impl VersionView {
    /// Well-formedness: the triple fits the numeric type and every
    /// identifier follows the grammar.
    pub open spec fn wf(self) -> bool {
        &&& 0 <= self.major <= u64::MAX
        &&& 0 <= self.minor <= u64::MAX
        &&& 0 <= self.patch <= u64::MAX
        &&& forall|i: int| 0 <= i < self.pre.len() ==> wf_pre_ident(#[trigger] self.pre[i])
        &&& forall|i: int| 0 <= i < self.build.len() ==> wf_build_ident(#[trigger] self.build[i])
    }

    /// The version that a plain 3-element numeric array denotes.
    pub open spec fn from_triplet(a: int, b: int, c: int) -> VersionView {
        VersionView { major: a, minor: b, patch: c, pre: Seq::empty(), build: Seq::empty() }
    }
}

/// A comparable version value with `(major, minor, patch)` semantics,
/// optional pre-release identifiers and optional build metadata.
pub struct AddonVersion {
    pub major: u64,
    pub minor: u64,
    pub patch: u64,
    pub pre: Vec<Vec<char>>,
    pub build: Vec<Vec<char>>,
}

impl View for AddonVersion {
    type V = VersionView;

    open spec fn view(&self) -> VersionView {
        VersionView {
            major: self.major as int,
            minor: self.minor as int,
            patch: self.patch as int,
            pre: self.pre.deep_view(),
            build: self.build.deep_view(),
        }
    }
}

impl AddonVersion {
    pub open spec fn wf(self) -> bool {
        self@.wf()
    }

    /// Builds the version that the numeric array encoding `[a, b, c]`
    /// denotes: no pre-release, no build metadata.
    pub fn from_triplet(a: u64, b: u64, c: u64) -> (r: AddonVersion)
        ensures
            r@ == VersionView::from_triplet(a as int, b as int, c as int),
            r.wf(),
    {
        let r = AddonVersion { major: a, minor: b, patch: c, pre: Vec::new(), build: Vec::new() };
        proof {
            assert(r@.pre =~= Seq::<Seq<char>>::empty());
            assert(r@.build =~= Seq::<Seq<char>>::empty());
        }
        r
    }

    /// An exact copy of the version value.
    pub fn duplicate(&self) -> (r: AddonVersion)
        ensures
            r@ == self@,
    {
        let r = AddonVersion {
            major: self.major,
            minor: self.minor,
            patch: self.patch,
            pre: copy_idents(&self.pre),
            build: copy_idents(&self.build),
        };
        proof {
            assert(r@ =~~= self@);
        }
        r
    }
}

fn copy_chars(a: &Vec<char>) -> (r: Vec<char>)
    ensures
        r@ == a@,
{
    let mut r: Vec<char> = Vec::new();
    let n = a.len();
    for i in 0..n
        invariant
            n == a.len(),
            r@ == a@.take(i as int),
    {
        r.push(a[i]);
        proof {
            assert(r@ =~= a@.take(i + 1));
        }
    }
    proof {
        assert(a@.take(n as int) =~= a@);
    }
    r
}

fn copy_idents(a: &Vec<Vec<char>>) -> (r: Vec<Vec<char>>)
    ensures
        r.deep_view() == a.deep_view(),
{
    let mut r: Vec<Vec<char>> = Vec::new();
    let n = a.len();
    for i in 0..n
        invariant
            n == a.len(),
            r.len() == i,
            forall|j: int| 0 <= j < i ==> r@[j]@ == a@[j]@,
    {
        r.push(copy_chars(&a[i]));
    }
    proof {
        assert forall|j: int| 0 <= j < n implies r.deep_view()[j] =~= a.deep_view()[j] by {
            assert(r.deep_view()[j] =~= r@[j]@);
            assert(a.deep_view()[j] =~= a@[j]@);
        }
        assert(r.deep_view() =~~= a.deep_view());
    }
    r
}

/// The opposite outcome, for reading a comparison from the other side.
pub open spec fn flip(o: VersionOrdering) -> VersionOrdering {
    match o {
        VersionOrdering::Less => VersionOrdering::Greater,
        VersionOrdering::Equal => VersionOrdering::Equal,
        VersionOrdering::Greater => VersionOrdering::Less,
    }
}

pub open spec fn cmp_int(a: int, b: int) -> VersionOrdering {
    if a < b {
        VersionOrdering::Less
    } else if a > b {
        VersionOrdering::Greater
    } else {
        VersionOrdering::Equal
    }
}

/// Plain lexicographic character comparison; a proper prefix is smaller.
pub open spec fn cmp_lex(a: Seq<char>, b: Seq<char>) -> VersionOrdering
    decreases a.len(),
{
    if a.len() == 0 && b.len() == 0 {
        VersionOrdering::Equal
    } else if a.len() == 0 {
        VersionOrdering::Less
    } else if b.len() == 0 {
        VersionOrdering::Greater
    } else if (a[0] as int) < (b[0] as int) {
        VersionOrdering::Less
    } else if (a[0] as int) > (b[0] as int) {
        VersionOrdering::Greater
    } else {
        cmp_lex(a.skip(1), b.skip(1))
    }
}

/// Numeric order of two digit strings without leading zeros: by length,
/// then lexicographically.
pub open spec fn cmp_numeric(a: Seq<char>, b: Seq<char>) -> VersionOrdering {
    if a.len() < b.len() {
        VersionOrdering::Less
    } else if a.len() > b.len() {
        VersionOrdering::Greater
    } else {
        cmp_lex(a, b)
    }
}

pub open spec fn trim_zeros(s: Seq<char>) -> Seq<char>
    decreases s.len(),
{
    if s.len() > 0 && s[0] == '0' {
        trim_zeros(s.skip(1))
    } else {
        s
    }
}

/// Numeric order of two digit strings that may carry leading zeros: by
/// value, then by the number of leading zeros.
pub open spec fn cmp_build_numeric(a: Seq<char>, b: Seq<char>) -> VersionOrdering {
    let o = cmp_numeric(trim_zeros(a), trim_zeros(b));
    if o != VersionOrdering::Equal {
        o
    } else {
        cmp_int(a.len() as int, b.len() as int)
    }
}

/// Pre-release identifier precedence: digits compare numerically, digits
/// order before letters, anything else compares lexically.
pub open spec fn cmp_pre_ident(a: Seq<char>, b: Seq<char>) -> VersionOrdering {
    if seq_all_digits(a) && seq_all_digits(b) {
        cmp_numeric(a, b)
    } else if seq_all_digits(a) {
        VersionOrdering::Less
    } else if seq_all_digits(b) {
        VersionOrdering::Greater
    } else {
        cmp_lex(a, b)
    }
}

/// Build identifier order: as pre-release precedence, except that numeric
/// identifiers may carry leading zeros.
pub open spec fn cmp_build_ident(a: Seq<char>, b: Seq<char>) -> VersionOrdering {
    if seq_all_digits(a) && seq_all_digits(b) {
        cmp_build_numeric(a, b)
    } else if seq_all_digits(a) {
        VersionOrdering::Less
    } else if seq_all_digits(b) {
        VersionOrdering::Greater
    } else {
        cmp_lex(a, b)
    }
}

/// Identifier lists compare element by element; a proper prefix is smaller.
pub open spec fn cmp_ident_seq(a: Seq<Seq<char>>, b: Seq<Seq<char>>, build: bool) -> VersionOrdering
    decreases a.len(),
{
    if a.len() == 0 && b.len() == 0 {
        VersionOrdering::Equal
    } else if a.len() == 0 {
        VersionOrdering::Less
    } else if b.len() == 0 {
        VersionOrdering::Greater
    } else {
        let o = if build {
            cmp_build_ident(a[0], b[0])
        } else {
            cmp_pre_ident(a[0], b[0])
        };
        if o != VersionOrdering::Equal {
            o
        } else {
            cmp_ident_seq(a.skip(1), b.skip(1), build)
        }
    }
}

/// A version without pre-release identifiers orders after any with them.
pub open spec fn cmp_pre(a: Seq<Seq<char>>, b: Seq<Seq<char>>) -> VersionOrdering {
    if a.len() == 0 && b.len() == 0 {
        VersionOrdering::Equal
    } else if a.len() == 0 {
        VersionOrdering::Greater
    } else if b.len() == 0 {
        VersionOrdering::Less
    } else {
        cmp_ident_seq(a, b, false)
    }
}

/// Build metadata breaks remaining ties; absent metadata orders first.
pub open spec fn cmp_build(a: Seq<Seq<char>>, b: Seq<Seq<char>>) -> VersionOrdering {
    if a.len() == 0 && b.len() == 0 {
        VersionOrdering::Equal
    } else if a.len() == 0 {
        VersionOrdering::Less
    } else if b.len() == 0 {
        VersionOrdering::Greater
    } else {
        cmp_ident_seq(a, b, true)
    }
}

/// Total order on versions: the numeric triple, then pre-release
/// precedence, then build metadata as the final tie-break.
pub open spec fn spec_compare(a: VersionView, b: VersionView) -> VersionOrdering {
    if a.major != b.major {
        cmp_int(a.major, b.major)
    } else if a.minor != b.minor {
        cmp_int(a.minor, b.minor)
    } else if a.patch != b.patch {
        cmp_int(a.patch, b.patch)
    } else {
        let o = cmp_pre(a.pre, b.pre);
        if o != VersionOrdering::Equal {
            o
        } else {
            cmp_build(a.build, b.build)
        }
    }
}

fn char_is_digit(c: char) -> (r: bool)
    ensures
        r == is_digit(c),
{
    '0' <= c && c <= '9'
}

fn all_digits(a: &Vec<char>, from: usize) -> (r: bool)
    requires
        from <= a.len(),
    ensures
        r == seq_all_digits(a@.skip(from as int)),
{
    let n = a.len();
    for i in from..n
        invariant
            from <= i <= n,
            n == a.len(),
            forall|j: int| from <= j < i ==> is_digit(a@[j]),
    {
        if !char_is_digit(a[i]) {
            assert(a@.skip(from as int)[i - from] == a@[i as int]);
            return false;
        }
    }
    assert forall|k: int| 0 <= k < a@.skip(from as int).len() implies is_digit(
        a@.skip(from as int)[k],
    ) by {
        assert(a@.skip(from as int)[k] == a@[k + from]);
    }
    true
}

fn cmp_u64(a: u64, b: u64) -> (r: VersionOrdering)
    ensures
        r == cmp_int(a as int, b as int),
{
    if a < b {
        VersionOrdering::Less
    } else if a > b {
        VersionOrdering::Greater
    } else {
        VersionOrdering::Equal
    }
}

fn cmp_lex_exec(a: &Vec<char>, ia: usize, b: &Vec<char>, ib: usize) -> (r: VersionOrdering)
    requires
        ia <= a.len(),
        ib <= b.len(),
    ensures
        r == cmp_lex(a@.skip(ia as int), b@.skip(ib as int)),
    decreases a.len() - ia,
{
    let na = a.len();
    let nb = b.len();
    if ia == na && ib == nb {
        VersionOrdering::Equal
    } else if ia == na {
        VersionOrdering::Less
    } else if ib == nb {
        VersionOrdering::Greater
    } else if a[ia] < b[ib] {
        VersionOrdering::Less
    } else if a[ia] > b[ib] {
        VersionOrdering::Greater
    } else {
        proof {
            assert(a@.skip(ia as int)[0] == a@[ia as int]);
            assert(b@.skip(ib as int)[0] == b@[ib as int]);
            assert(a@.skip(ia as int).skip(1) =~= a@.skip(ia + 1));
            assert(b@.skip(ib as int).skip(1) =~= b@.skip(ib + 1));
        }
        cmp_lex_exec(a, ia + 1, b, ib + 1)
    }
}

fn trim_zeros_start(a: &Vec<char>, i: usize) -> (k: usize)
    requires
        i <= a.len(),
    ensures
        i <= k <= a.len(),
        trim_zeros(a@.skip(i as int)) == a@.skip(k as int),
    decreases a.len() - i,
{
    if i < a.len() && a[i] == '0' {
        proof {
            assert(a@.skip(i as int)[0] == a@[i as int]);
            assert(a@.skip(i as int).skip(1) =~= a@.skip(i + 1));
        }
        trim_zeros_start(a, i + 1)
    } else {
        proof {
            if i < a.len() {
                assert(a@.skip(i as int)[0] == a@[i as int]);
            }
        }
        i
    }
}

fn cmp_numeric_exec(a: &Vec<char>, ia: usize, b: &Vec<char>, ib: usize) -> (r: VersionOrdering)
    requires
        ia <= a.len(),
        ib <= b.len(),
    ensures
        r == cmp_numeric(a@.skip(ia as int), b@.skip(ib as int)),
{
    let la = a.len() - ia;
    let lb = b.len() - ib;
    if la < lb {
        VersionOrdering::Less
    } else if la > lb {
        VersionOrdering::Greater
    } else {
        cmp_lex_exec(a, ia, b, ib)
    }
}

fn cmp_ident(a: &Vec<char>, b: &Vec<char>, build: bool) -> (r: VersionOrdering)
    ensures
        build ==> r == cmp_build_ident(a@, b@),
        !build ==> r == cmp_pre_ident(a@, b@),
{
    let da = all_digits(a, 0);
    let db = all_digits(b, 0);
    proof {
        assert(a@.skip(0) =~= a@);
        assert(b@.skip(0) =~= b@);
    }
    if da && db {
        if build {
            let ka = trim_zeros_start(a, 0);
            let kb = trim_zeros_start(b, 0);
            let o = cmp_numeric_exec(a, ka, b, kb);
            if o != VersionOrdering::Equal {
                o
            } else {
                cmp_u64(a.len() as u64, b.len() as u64)
            }
        } else {
            cmp_numeric_exec(a, 0, b, 0)
        }
    } else if da {
        VersionOrdering::Less
    } else if db {
        VersionOrdering::Greater
    } else {
        cmp_lex_exec(a, 0, b, 0)
    }
}

fn cmp_ident_seq_exec(a: &Vec<Vec<char>>, b: &Vec<Vec<char>>, i: usize, build: bool) -> (r:
    VersionOrdering)
    requires
        i <= a.len(),
        i <= b.len(),
    ensures
        r == cmp_ident_seq(a.deep_view().skip(i as int), b.deep_view().skip(i as int), build),
    decreases a.len() - i,
{
    let na = a.len();
    let nb = b.len();
    if i == na && i == nb {
        VersionOrdering::Equal
    } else if i == na {
        VersionOrdering::Less
    } else if i == nb {
        VersionOrdering::Greater
    } else {
        proof {
            assert(a.deep_view()[i as int] =~= a@[i as int]@);
            assert(b.deep_view()[i as int] =~= b@[i as int]@);
            assert(a.deep_view().skip(i as int)[0] == a.deep_view()[i as int]);
            assert(b.deep_view().skip(i as int)[0] == b.deep_view()[i as int]);
            assert(a.deep_view().skip(i as int).skip(1) =~= a.deep_view().skip(i + 1));
            assert(b.deep_view().skip(i as int).skip(1) =~= b.deep_view().skip(i + 1));
        }
        let o = cmp_ident(&a[i], &b[i], build);
        if o != VersionOrdering::Equal {
            o
        } else {
            cmp_ident_seq_exec(a, b, i + 1, build)
        }
    }
}

impl AddonVersion {
    /// Compares two versions under the total order `spec_compare`.
    pub fn compare(&self, other: &AddonVersion) -> (r: VersionOrdering)
        ensures
            r == spec_compare(self@, other@),
    {
        let o = cmp_u64(self.major, other.major);
        if o != VersionOrdering::Equal {
            return o;
        }
        let o = cmp_u64(self.minor, other.minor);
        if o != VersionOrdering::Equal {
            return o;
        }
        let o = cmp_u64(self.patch, other.patch);
        if o != VersionOrdering::Equal {
            return o;
        }
        proof {
            assert(self.pre.deep_view().skip(0) =~= self@.pre);
            assert(other.pre.deep_view().skip(0) =~= other@.pre);
            assert(self.build.deep_view().skip(0) =~= self@.build);
            assert(other.build.deep_view().skip(0) =~= other@.build);
        }
        let o = if self.pre.len() == 0 && other.pre.len() == 0 {
            VersionOrdering::Equal
        } else if self.pre.len() == 0 {
            VersionOrdering::Greater
        } else if other.pre.len() == 0 {
            VersionOrdering::Less
        } else {
            cmp_ident_seq_exec(&self.pre, &other.pre, 0, false)
        };
        if o != VersionOrdering::Equal {
            return o;
        }
        if self.build.len() == 0 && other.build.len() == 0 {
            VersionOrdering::Equal
        } else if self.build.len() == 0 {
            VersionOrdering::Less
        } else if other.build.len() == 0 {
            VersionOrdering::Greater
        } else {
            cmp_ident_seq_exec(&self.build, &other.build, 0, true)
        }
    }
}

proof fn lemma_cmp_lex_refl(a: Seq<char>)
    ensures
        cmp_lex(a, a) == VersionOrdering::Equal,
    decreases a.len(),
{
    if a.len() > 0 {
        lemma_cmp_lex_refl(a.skip(1));
    }
}

proof fn lemma_cmp_lex_eq(a: Seq<char>, b: Seq<char>)
    requires
        cmp_lex(a, b) == VersionOrdering::Equal,
    ensures
        a == b,
    decreases a.len(),
{
    if a.len() == 0 || b.len() == 0 {
        assert(a =~= b);
    } else {
        lemma_cmp_lex_eq(a.skip(1), b.skip(1));
        assert forall|i: int| 0 <= i < a.len() implies a[i] == b[i] by {
            if i > 0 {
                assert(a.skip(1)[i - 1] == b.skip(1)[i - 1]);
            }
        }
        assert(a =~= b);
    }
}

proof fn lemma_cmp_lex_flip(a: Seq<char>, b: Seq<char>)
    ensures
        cmp_lex(b, a) == flip(cmp_lex(a, b)),
    decreases a.len(),
{
    if a.len() > 0 && b.len() > 0 && a[0] as int == b[0] as int {
        lemma_cmp_lex_flip(a.skip(1), b.skip(1));
    }
}

proof fn lemma_cmp_lex_trans(a: Seq<char>, b: Seq<char>, c: Seq<char>)
    requires
        cmp_lex(a, b) == VersionOrdering::Less,
        cmp_lex(b, c) == VersionOrdering::Less,
    ensures
        cmp_lex(a, c) == VersionOrdering::Less,
    decreases a.len(),
{
    if a.len() > 0 && b.len() > 0 && c.len() > 0 && a[0] as int == b[0] as int && b[0] as int
        == c[0] as int {
        lemma_cmp_lex_trans(a.skip(1), b.skip(1), c.skip(1));
    }
}

proof fn lemma_cmp_numeric_refl(a: Seq<char>)
    ensures
        cmp_numeric(a, a) == VersionOrdering::Equal,
{
    lemma_cmp_lex_refl(a);
}

proof fn lemma_cmp_numeric_eq(a: Seq<char>, b: Seq<char>)
    requires
        cmp_numeric(a, b) == VersionOrdering::Equal,
    ensures
        a == b,
{
    lemma_cmp_lex_eq(a, b);
}

proof fn lemma_cmp_numeric_flip(a: Seq<char>, b: Seq<char>)
    ensures
        cmp_numeric(b, a) == flip(cmp_numeric(a, b)),
{
    lemma_cmp_lex_flip(a, b);
}

proof fn lemma_cmp_numeric_trans(a: Seq<char>, b: Seq<char>, c: Seq<char>)
    requires
        cmp_numeric(a, b) == VersionOrdering::Less,
        cmp_numeric(b, c) == VersionOrdering::Less,
    ensures
        cmp_numeric(a, c) == VersionOrdering::Less,
{
    if a.len() == b.len() && b.len() == c.len() {
        lemma_cmp_lex_trans(a, b, c);
    }
}

proof fn lemma_trim_zeros(s: Seq<char>)
    ensures
        trim_zeros(s).len() <= s.len(),
        trim_zeros(s) == s.skip(s.len() - trim_zeros(s).len()),
        forall|i: int| 0 <= i < s.len() - trim_zeros(s).len() ==> s[i] == '0',
    decreases s.len(),
{
    if s.len() > 0 && s[0] == '0' {
        lemma_trim_zeros(s.skip(1));
        let t = trim_zeros(s);
        let k = s.len() - t.len();
        assert(s.skip(1).skip(s.skip(1).len() - t.len()) =~= s.skip(k));
        assert forall|i: int| 0 <= i < k implies s[i] == '0' by {
            if i > 0 {
                assert(s.skip(1)[i - 1] == '0');
            }
        }
    }
}

proof fn lemma_cmp_build_numeric_refl(a: Seq<char>)
    ensures
        cmp_build_numeric(a, a) == VersionOrdering::Equal,
{
    lemma_cmp_numeric_refl(trim_zeros(a));
}

proof fn lemma_cmp_build_numeric_eq(a: Seq<char>, b: Seq<char>)
    requires
        cmp_build_numeric(a, b) == VersionOrdering::Equal,
    ensures
        a == b,
{
    lemma_cmp_numeric_eq(trim_zeros(a), trim_zeros(b));
    lemma_trim_zeros(a);
    lemma_trim_zeros(b);
    let ka = a.len() - trim_zeros(a).len();
    assert forall|i: int| 0 <= i < a.len() implies a[i] == b[i] by {
        if i >= ka {
            assert(trim_zeros(a)[i - ka] == a[i]);
            assert(trim_zeros(b)[i - ka] == b[i]);
        }
    }
    assert(a =~= b);
}

proof fn lemma_cmp_build_numeric_flip(a: Seq<char>, b: Seq<char>)
    ensures
        cmp_build_numeric(b, a) == flip(cmp_build_numeric(a, b)),
{
    lemma_cmp_numeric_flip(trim_zeros(a), trim_zeros(b));
    if cmp_numeric(trim_zeros(a), trim_zeros(b)) == VersionOrdering::Equal {
        lemma_cmp_numeric_eq(trim_zeros(a), trim_zeros(b));
    }
}

proof fn lemma_cmp_build_numeric_trans(a: Seq<char>, b: Seq<char>, c: Seq<char>)
    requires
        cmp_build_numeric(a, b) == VersionOrdering::Less,
        cmp_build_numeric(b, c) == VersionOrdering::Less,
    ensures
        cmp_build_numeric(a, c) == VersionOrdering::Less,
{
    let tab = cmp_numeric(trim_zeros(a), trim_zeros(b));
    let tbc = cmp_numeric(trim_zeros(b), trim_zeros(c));
    if tab == VersionOrdering::Less && tbc == VersionOrdering::Less {
        lemma_cmp_numeric_trans(trim_zeros(a), trim_zeros(b), trim_zeros(c));
    } else if tab == VersionOrdering::Equal {
        lemma_cmp_numeric_eq(trim_zeros(a), trim_zeros(b));
    } else if tbc == VersionOrdering::Equal {
        lemma_cmp_numeric_eq(trim_zeros(b), trim_zeros(c));
    }
}

proof fn lemma_cmp_ident_refl(a: Seq<char>, build: bool)
    ensures
        build ==> cmp_build_ident(a, a) == VersionOrdering::Equal,
        !build ==> cmp_pre_ident(a, a) == VersionOrdering::Equal,
{
    lemma_cmp_lex_refl(a);
    lemma_cmp_numeric_refl(a);
    lemma_cmp_build_numeric_refl(a);
}

proof fn lemma_cmp_ident_eq(a: Seq<char>, b: Seq<char>, build: bool)
    requires
        (build && cmp_build_ident(a, b) == VersionOrdering::Equal) || (!build && cmp_pre_ident(
            a,
            b,
        ) == VersionOrdering::Equal),
    ensures
        a == b,
{
    if seq_all_digits(a) && seq_all_digits(b) {
        if build {
            lemma_cmp_build_numeric_eq(a, b);
        } else {
            lemma_cmp_numeric_eq(a, b);
        }
    } else if !seq_all_digits(a) && !seq_all_digits(b) {
        lemma_cmp_lex_eq(a, b);
    }
}

proof fn lemma_cmp_ident_flip(a: Seq<char>, b: Seq<char>, build: bool)
    ensures
        build ==> cmp_build_ident(b, a) == flip(cmp_build_ident(a, b)),
        !build ==> cmp_pre_ident(b, a) == flip(cmp_pre_ident(a, b)),
{
    lemma_cmp_lex_flip(a, b);
    lemma_cmp_numeric_flip(a, b);
    lemma_cmp_build_numeric_flip(a, b);
}

proof fn lemma_cmp_ident_trans(a: Seq<char>, b: Seq<char>, c: Seq<char>, build: bool)
    requires
        (build && cmp_build_ident(a, b) == VersionOrdering::Less && cmp_build_ident(b, c)
            == VersionOrdering::Less) || (!build && cmp_pre_ident(a, b) == VersionOrdering::Less
            && cmp_pre_ident(b, c) == VersionOrdering::Less),
    ensures
        build ==> cmp_build_ident(a, c) == VersionOrdering::Less,
        !build ==> cmp_pre_ident(a, c) == VersionOrdering::Less,
{
    if seq_all_digits(a) && seq_all_digits(b) && seq_all_digits(c) {
        if build {
            lemma_cmp_build_numeric_trans(a, b, c);
        } else {
            lemma_cmp_numeric_trans(a, b, c);
        }
    } else if !seq_all_digits(a) && !seq_all_digits(b) && !seq_all_digits(c) {
        lemma_cmp_lex_trans(a, b, c);
    }
}

proof fn lemma_cmp_ident_seq_refl(a: Seq<Seq<char>>, build: bool)
    ensures
        cmp_ident_seq(a, a, build) == VersionOrdering::Equal,
    decreases a.len(),
{
    if a.len() > 0 {
        lemma_cmp_ident_refl(a[0], build);
        lemma_cmp_ident_seq_refl(a.skip(1), build);
    }
}

proof fn lemma_cmp_ident_seq_eq(a: Seq<Seq<char>>, b: Seq<Seq<char>>, build: bool)
    requires
        cmp_ident_seq(a, b, build) == VersionOrdering::Equal,
    ensures
        a == b,
    decreases a.len(),
{
    if a.len() == 0 || b.len() == 0 {
        assert(a =~= b);
    } else {
        lemma_cmp_ident_eq(a[0], b[0], build);
        lemma_cmp_ident_seq_eq(a.skip(1), b.skip(1), build);
        assert forall|i: int| 0 <= i < a.len() implies a[i] == b[i] by {
            if i > 0 {
                assert(a.skip(1)[i - 1] == b.skip(1)[i - 1]);
            }
        }
        assert(a =~= b);
    }
}

proof fn lemma_cmp_ident_seq_flip(a: Seq<Seq<char>>, b: Seq<Seq<char>>, build: bool)
    ensures
        cmp_ident_seq(b, a, build) == flip(cmp_ident_seq(a, b, build)),
    decreases a.len(),
{
    if a.len() > 0 && b.len() > 0 {
        lemma_cmp_ident_flip(a[0], b[0], build);
        if (build && cmp_build_ident(a[0], b[0]) == VersionOrdering::Equal) || (!build
            && cmp_pre_ident(a[0], b[0]) == VersionOrdering::Equal) {
            lemma_cmp_ident_seq_flip(a.skip(1), b.skip(1), build);
        }
    }
}

proof fn lemma_cmp_ident_seq_trans(
    a: Seq<Seq<char>>,
    b: Seq<Seq<char>>,
    c: Seq<Seq<char>>,
    build: bool,
)
    requires
        cmp_ident_seq(a, b, build) == VersionOrdering::Less,
        cmp_ident_seq(b, c, build) == VersionOrdering::Less,
    ensures
        cmp_ident_seq(a, c, build) == VersionOrdering::Less,
    decreases a.len(),
{
    if a.len() == 0 {
        // b is nonempty, so c is nonempty as well, and an empty left side is smaller
    } else {
        let oab = if build {
            cmp_build_ident(a[0], b[0])
        } else {
            cmp_pre_ident(a[0], b[0])
        };
        let obc = if build {
            cmp_build_ident(b[0], c[0])
        } else {
            cmp_pre_ident(b[0], c[0])
        };
        if oab == VersionOrdering::Less && obc == VersionOrdering::Less {
            lemma_cmp_ident_trans(a[0], b[0], c[0], build);
        } else if oab == VersionOrdering::Equal && obc == VersionOrdering::Equal {
            lemma_cmp_ident_eq(a[0], b[0], build);
            lemma_cmp_ident_seq_trans(a.skip(1), b.skip(1), c.skip(1), build);
        } else if oab == VersionOrdering::Equal {
            lemma_cmp_ident_eq(a[0], b[0], build);
        } else if obc == VersionOrdering::Equal {
            lemma_cmp_ident_eq(b[0], c[0], build);
        }
    }
}

proof fn lemma_cmp_pre_laws(a: Seq<Seq<char>>, b: Seq<Seq<char>>)
    ensures
        cmp_pre(a, a) == VersionOrdering::Equal,
        cmp_pre(a, b) == VersionOrdering::Equal ==> a == b,
        cmp_pre(b, a) == flip(cmp_pre(a, b)),
        cmp_build(a, a) == VersionOrdering::Equal,
        cmp_build(a, b) == VersionOrdering::Equal ==> a == b,
        cmp_build(b, a) == flip(cmp_build(a, b)),
{
    lemma_cmp_ident_seq_refl(a, false);
    lemma_cmp_ident_seq_refl(a, true);
    if a.len() > 0 && b.len() > 0 {
        if cmp_ident_seq(a, b, false) == VersionOrdering::Equal {
            lemma_cmp_ident_seq_eq(a, b, false);
        }
        if cmp_ident_seq(a, b, true) == VersionOrdering::Equal {
            lemma_cmp_ident_seq_eq(a, b, true);
        }
        lemma_cmp_ident_seq_flip(a, b, false);
        lemma_cmp_ident_seq_flip(a, b, true);
    }
    if a.len() == 0 && b.len() == 0 {
        assert(a =~= b);
    }
}

proof fn lemma_cmp_pre_trans(a: Seq<Seq<char>>, b: Seq<Seq<char>>, c: Seq<Seq<char>>)
    requires
        cmp_pre(a, b) == VersionOrdering::Less,
        cmp_pre(b, c) == VersionOrdering::Less,
    ensures
        cmp_pre(a, c) == VersionOrdering::Less,
{
    if a.len() > 0 && b.len() > 0 && c.len() > 0 {
        lemma_cmp_ident_seq_trans(a, b, c, false);
    }
}

proof fn lemma_cmp_build_trans(a: Seq<Seq<char>>, b: Seq<Seq<char>>, c: Seq<Seq<char>>)
    requires
        cmp_build(a, b) == VersionOrdering::Less,
        cmp_build(b, c) == VersionOrdering::Less,
    ensures
        cmp_build(a, c) == VersionOrdering::Less,
{
    if a.len() > 0 && b.len() > 0 && c.len() > 0 {
        lemma_cmp_ident_seq_trans(a, b, c, true);
    }
}

/// Comparison is reflexive: every version compares `Equal` to itself.
pub proof fn lemma_compare_reflexive(a: VersionView)
    ensures
        spec_compare(a, a) == VersionOrdering::Equal,
{
    lemma_cmp_pre_laws(a.pre, a.pre);
    lemma_cmp_pre_laws(a.build, a.build);
}

/// Comparison is antisymmetric: `Equal` holds exactly between equal values,
/// and swapping the arguments flips the outcome.
pub proof fn lemma_compare_antisymmetric(a: VersionView, b: VersionView)
    ensures
        spec_compare(a, b) == VersionOrdering::Equal <==> a == b,
        spec_compare(b, a) == flip(spec_compare(a, b)),
{
    lemma_cmp_pre_laws(a.pre, b.pre);
    lemma_cmp_pre_laws(a.build, b.build);
    if spec_compare(a, b) == VersionOrdering::Equal {
        assert(a =~~= b);
    }
    if a == b {
        lemma_compare_reflexive(a);
    }
}

/// Comparison is transitive over "not greater", hence a total order.
pub proof fn lemma_compare_transitive(a: VersionView, b: VersionView, c: VersionView)
    requires
        spec_compare(a, b) != VersionOrdering::Greater,
        spec_compare(b, c) != VersionOrdering::Greater,
    ensures
        spec_compare(a, c) != VersionOrdering::Greater,
{
    lemma_compare_antisymmetric(a, b);
    lemma_compare_antisymmetric(b, c);
    if spec_compare(a, b) == VersionOrdering::Equal {
        // a == b, so comparing a with c is comparing b with c
    } else if spec_compare(b, c) == VersionOrdering::Equal {
        // b == c likewise
    } else {
        lemma_compare_strict_transitive(a, b, c);
    }
}

/// Strict transitivity of the version order.
pub proof fn lemma_compare_strict_transitive(a: VersionView, b: VersionView, c: VersionView)
    requires
        spec_compare(a, b) == VersionOrdering::Less,
        spec_compare(b, c) == VersionOrdering::Less,
    ensures
        spec_compare(a, c) == VersionOrdering::Less,
{
    if a.major == c.major && a.minor == c.minor && a.patch == c.patch {
        let pab = cmp_pre(a.pre, b.pre);
        let pbc = cmp_pre(b.pre, c.pre);
        if pab == VersionOrdering::Equal {
            lemma_cmp_pre_laws(a.pre, b.pre);
        }
        if pbc == VersionOrdering::Equal {
            lemma_cmp_pre_laws(b.pre, c.pre);
        }
        if pab == VersionOrdering::Less && pbc == VersionOrdering::Less {
            lemma_cmp_pre_trans(a.pre, b.pre, c.pre);
        } else if pab == VersionOrdering::Equal && pbc == VersionOrdering::Equal {
            lemma_cmp_build_trans(a.build, b.build, c.build);
        }
    }
}


// ---------------------------------------------------------------------------
// Parsing a dotted semantic-versioning string
// ---------------------------------------------------------------------------
/// First position at or after `i` whose character is not a digit.
pub open spec fn take_digits(s: Seq<char>, i: int) -> int
    decreases s.len() - i,
    when 0 <= i <= s.len()
{
    if i < s.len() && is_digit(s[i]) {
        take_digits(s, i + 1)
    } else {
        i
    }
}

proof fn lemma_take_digits(s: Seq<char>, i: int)
    requires
        0 <= i <= s.len(),
    ensures
        i <= take_digits(s, i) <= s.len(),
        forall|k: int| i <= k < take_digits(s, i) ==> is_digit(s[k]),
        take_digits(s, i) < s.len() ==> !is_digit(s[take_digits(s, i)]),
    decreases s.len() - i,
{
    if i < s.len() && is_digit(s[i]) {
        lemma_take_digits(s, i + 1);
    }
}

/// First position at or after `i` whose character may not stand in an
/// identifier.
pub open spec fn take_ident(s: Seq<char>, i: int) -> int
    decreases s.len() - i,
    when 0 <= i <= s.len()
{
    if i < s.len() && is_ident_char(s[i]) {
        take_ident(s, i + 1)
    } else {
        i
    }
}

proof fn lemma_take_ident(s: Seq<char>, i: int)
    requires
        0 <= i <= s.len(),
    ensures
        i <= take_ident(s, i) <= s.len(),
        forall|k: int| i <= k < take_ident(s, i) ==> is_ident_char(s[k]),
        take_ident(s, i) < s.len() ==> !is_ident_char(s[take_ident(s, i)]),
    decreases s.len() - i,
{
    if i < s.len() && is_ident_char(s[i]) {
        lemma_take_ident(s, i + 1);
    }
}

pub open spec fn digit_val(c: char) -> int {
    c as int - '0' as int
}

/// The number that a digit string denotes.
pub open spec fn digits_val(s: Seq<char>) -> int
    decreases s.len(),
{
    if s.len() == 0 {
        0
    } else {
        digits_val(s.drop_last()) * 10 + digit_val(s.last())
    }
}

proof fn lemma_digits_val_nonneg(s: Seq<char>)
    requires
        forall|k: int| 0 <= k < s.len() ==> is_digit(s[k]),
    ensures
        digits_val(s) >= 0,
    decreases s.len(),
{
    if s.len() > 0 {
        lemma_digits_val_nonneg(s.drop_last());
    }
}

/// A maximal run of digits starting at `i`, read as a number: rejected when
/// empty, when it carries a leading zero, or when it exceeds the numeric
/// type; otherwise its value and the position after it.
pub open spec fn spec_parse_num(s: Seq<char>, i: int) -> Option<(int, int)> {
    let j = take_digits(s, i);
    if j == i {
        None
    } else if s[i] == '0' && j > i + 1 {
        None
    } else if digits_val(s.subrange(i, j)) > u64::MAX {
        None
    } else {
        Some((digits_val(s.subrange(i, j)), j))
    }
}

/// Dot-separated identifiers starting at `i`, ending before the first
/// character that neither continues an identifier nor is a separating dot.
/// Pre-release identifiers reject leading zeros on numeric identifiers.
pub open spec fn spec_parse_idents(s: Seq<char>, i: int, pre: bool) -> Option<
    (Seq<Seq<char>>, int),
>
    decreases s.len() - i,
    when 0 <= i <= s.len()
    via spec_parse_idents_decreases
{
    let j = take_ident(s, i);
    if j == i {
        None
    } else {
        let id = s.subrange(i, j);
        let ok = if pre {
            wf_pre_ident(id)
        } else {
            wf_build_ident(id)
        };
        if !ok {
            None
        } else if j < s.len() && s[j] == '.' {
            match spec_parse_idents(s, j + 1, pre) {
                None => None,
                Some((rest, k)) => Some((seq![id] + rest, k)),
            }
        } else {
            Some((seq![id], j))
        }
    }
}

#[via_fn]
proof fn spec_parse_idents_decreases(s: Seq<char>, i: int, pre: bool) {
    lemma_take_ident(s, i);
}

proof fn lemma_spec_parse_idents(s: Seq<char>, i: int, pre: bool)
    requires
        0 <= i <= s.len(),
    ensures
        match spec_parse_idents(s, i, pre) {
            Some((ids, k)) => {
                &&& i <= k <= s.len()
                &&& ids.len() > 0
                &&& forall|m: int|
                    0 <= m < ids.len() ==> (if pre {
                        wf_pre_ident(#[trigger] ids[m])
                    } else {
                        wf_build_ident(ids[m])
                    })
            },
            None => true,
        },
    decreases s.len() - i,
{
    lemma_take_ident(s, i);
    let j = take_ident(s, i);
    if j != i && j < s.len() && s[j] == '.' {
        lemma_spec_parse_idents(s, j + 1, pre);
    }
}

/// The whole grammar: `major.minor.patch`, an optional pre-release part
/// after a hyphen, an optional build part after a plus sign, nothing else.
pub open spec fn spec_parse(s: Seq<char>) -> Option<VersionView> {
    match spec_parse_num(s, 0) {
        None => None,
        Some((major, i)) => if !(i < s.len() && s[i] == '.') {
            None
        } else {
            match spec_parse_num(s, i + 1) {
                None => None,
                Some((minor, j)) => if !(j < s.len() && s[j] == '.') {
                    None
                } else {
                    match spec_parse_num(s, j + 1) {
                        None => None,
                        Some((patch, k)) => spec_parse_tail(s, k, major, minor, patch),
                    }
                },
            }
        },
    }
}

pub open spec fn spec_parse_tail(s: Seq<char>, k: int, major: int, minor: int, patch: int) -> Option<
    VersionView,
> {
    if k == s.len() {
        Some(VersionView { major, minor, patch, pre: Seq::empty(), build: Seq::empty() })
    } else if s[k] == '-' {
        match spec_parse_idents(s, k + 1, true) {
            None => None,
            Some((pre, k2)) => spec_parse_build(s, k2, major, minor, patch, pre),
        }
    } else if s[k] == '+' {
        match spec_parse_idents(s, k + 1, false) {
            None => None,
            Some((build, k3)) => if k3 == s.len() {
                Some(VersionView { major, minor, patch, pre: Seq::empty(), build })
            } else {
                None
            },
        }
    } else {
        None
    }
}

pub open spec fn spec_parse_build(
    s: Seq<char>,
    k2: int,
    major: int,
    minor: int,
    patch: int,
    pre: Seq<Seq<char>>,
) -> Option<VersionView> {
    if k2 == s.len() {
        Some(VersionView { major, minor, patch, pre, build: Seq::empty() })
    } else if s[k2] == '+' {
        match spec_parse_idents(s, k2 + 1, false) {
            None => None,
            Some((build, k3)) => if k3 == s.len() {
                Some(VersionView { major, minor, patch, pre, build })
            } else {
                None
            },
        }
    } else {
        None
    }
}

fn char_is_ident(c: char) -> (r: bool)
    ensures
        r == is_ident_char(c),
{
    ('0' <= c && c <= '9') || ('A' <= c && c <= 'Z') || ('a' <= c && c <= 'z') || c == '-'
}

fn take_digits_exec(s: &str, i: usize, n: usize) -> (r: usize)
    requires
        n == s@.len(),
        i <= n,
    ensures
        r == take_digits(s@, i as int),
        i <= r <= n,
    decreases n - i,
{
    if i < n {
        let c = s.get_char(i);
        if char_is_digit(c) {
            return take_digits_exec(s, i + 1, n);
        }
    }
    i
}

fn take_ident_exec(s: &str, i: usize, n: usize) -> (r: usize)
    requires
        n == s@.len(),
        i <= n,
    ensures
        r == take_ident(s@, i as int),
        i <= r <= n,
    decreases n - i,
{
    if i < n {
        let c = s.get_char(i);
        if char_is_ident(c) {
            return take_ident_exec(s, i + 1, n);
        }
    }
    i
}

fn digits_value_exec(s: &str, i: usize, j: usize, n: usize) -> (r: Option<u64>)
    requires
        n == s@.len(),
        i <= j <= n,
        forall|k: int| i <= k < j ==> is_digit(s@[k]),
    ensures
        match r {
            Some(v) => v as int == digits_val(s@.subrange(i as int, j as int)),
            None => digits_val(s@.subrange(i as int, j as int)) > u64::MAX,
        },
    decreases j - i,
{
    if i == j {
        proof {
            assert(s@.subrange(i as int, j as int) =~= Seq::<char>::empty());
        }
        Some(0)
    } else {
        let sub = digits_value_exec(s, i, j - 1, n);
        proof {
            assert(s@.subrange(i as int, j as int).drop_last() =~= s@.subrange(
                i as int,
                j - 1 as int,
            ));
            assert(s@.subrange(i as int, j as int).last() == s@[j - 1]);
            lemma_digits_val_nonneg(s@.subrange(i as int, j - 1 as int));
        }
        let c = s.get_char(j - 1);
        let d: u64 = ((c as u32) - ('0' as u32)) as u64;
        proof {
            assert(is_digit(s@[j - 1]));
            assert(d as int == digit_val(s@[j - 1]));
        }
        match sub {
            None => {
                proof {
                    let w = digits_val(s@.subrange(i as int, j - 1 as int));
                    assert(w > u64::MAX ==> w * 10 + d as int > u64::MAX) by (nonlinear_arith);
                }
                None
            },
            Some(v) => {
                if v > (u64::MAX - d) / 10 {
                    proof {
                        let q = (u64::MAX - d) / 10;
                        assert(u64::MAX - d == q * 10 + (u64::MAX - d) % 10);
                        assert(v as int >= q + 1);
                        assert(v as int * 10 >= (q + 1) * 10) by (nonlinear_arith)
                            requires
                                v as int >= q + 1,
                        ;
                        assert(v as int * 10 + d as int > u64::MAX);
                    }
                    None
                } else {
                    proof {
                        let q = (u64::MAX - d) / 10;
                        assert(u64::MAX - d == q * 10 + (u64::MAX - d) % 10);
                        assert(v as int * 10 <= q * 10) by (nonlinear_arith)
                            requires
                                v as int <= q,
                        ;
                    }
                    Some(v * 10 + d)
                }
            },
        }
    }
}

fn parse_num_exec(s: &str, i: usize, n: usize) -> (r: Option<(u64, usize)>)
    requires
        n == s@.len(),
        i <= n,
    ensures
        match r {
            Some(p) => spec_parse_num(s@, i as int) == Some((p.0 as int, p.1 as int)) && i <= p.1
                <= n,
            None => spec_parse_num(s@, i as int) is None,
        },
{
    proof {
        lemma_take_digits(s@, i as int);
    }
    let j = take_digits_exec(s, i, n);
    if j == i {
        return None;
    }
    if s.get_char(i) == '0' && j > i + 1 {
        return None;
    }
    match digits_value_exec(s, i, j, n) {
        None => None,
        Some(v) => Some((v, j)),
    }
}

fn collect_chars(s: &str, i: usize, j: usize, n: usize) -> (r: Vec<char>)
    requires
        n == s@.len(),
        i <= j <= n,
    ensures
        r@ == s@.subrange(i as int, j as int),
{
    let mut r: Vec<char> = Vec::new();
    let mut p = i;
    while p < j
        invariant
            i <= p <= j <= n,
            n == s@.len(),
            r@ =~= s@.subrange(i as int, p as int),
        decreases j - p,
    {
        r.push(s.get_char(p));
        proof {
            assert(r@ =~= s@.subrange(i as int, p + 1));
        }
        p = p + 1;
    }
    r
}

fn parse_idents_exec(s: &str, i: usize, n: usize, pre: bool) -> (r: Option<(Vec<Vec<char>>, usize)>)
    requires
        n == s@.len(),
        i <= n,
    ensures
        match r {
            Some(p) => spec_parse_idents(s@, i as int, pre) == Some((p.0.deep_view(), p.1 as int))
                && i <= p.1 <= n,
            None => spec_parse_idents(s@, i as int, pre) is None,
        },
    decreases n - i,
{
    proof {
        lemma_take_ident(s@, i as int);
    }
    let j = take_ident_exec(s, i, n);
    if j == i {
        return None;
    }
    let id = collect_chars(s, i, j, n);
    proof {
        assert(wf_ident(id@));
    }
    if pre {
        proof {
            assert(id@.skip(0) =~= id@);
        }
        if all_digits(&id, 0) && j - i > 1 && id[0] == '0' {
            proof {
                assert(!wf_pre_ident(id@));
            }
            return None;
        }
        proof {
            assert(wf_pre_ident(id@));
        }
    }
    if j < n && s.get_char(j) == '.' {
        match parse_idents_exec(s, j + 1, n, pre) {
            None => None,
            Some((mut rest, k)) => {
                let ghost rest0 = rest.deep_view();
                rest.insert(0, id);
                proof {
                    assert(rest.deep_view() =~~= seq![s@.subrange(i as int, j as int)] + rest0);
                }
                Some((rest, k))
            },
        }
    } else {
        let mut one: Vec<Vec<char>> = Vec::new();
        one.push(id);
        proof {
            assert(one.deep_view() =~~= seq![s@.subrange(i as int, j as int)]);
        }
        Some((one, j))
    }
}

impl AddonVersion {
    /// Parses a dotted semantic-versioning string. Succeeds exactly on the
    /// strings of the grammar `spec_parse`, returning the version they
    /// denote; anything else fails with `InvalidVersion`.
    pub fn parse(s: &str) -> (r: Result<AddonVersion, InvalidVersion>)
        ensures
            (r matches Ok(v) ==> spec_parse(s@) == Some(v@) && v.wf()),
            (r is Err ==> spec_parse(s@) is None),
    {
        let n = s.unicode_len();
        let (major, i) = match parse_num_exec(s, 0, n) {
            None => {
                return Err(InvalidVersion);
            },
            Some(p) => p,
        };
        if i == n || s.get_char(i) != '.' {
            return Err(InvalidVersion);
        }
        let (minor, j) = match parse_num_exec(s, i + 1, n) {
            None => {
                return Err(InvalidVersion);
            },
            Some(p) => p,
        };
        if j == n || s.get_char(j) != '.' {
            return Err(InvalidVersion);
        }
        let (patch, k) = match parse_num_exec(s, j + 1, n) {
            None => {
                return Err(InvalidVersion);
            },
            Some(p) => p,
        };
        if k == n {
            let v = AddonVersion {
                major,
                minor,
                patch,
                pre: Vec::new(),
                build: Vec::new(),
            };
            proof {
                assert(v@.pre =~= Seq::<Seq<char>>::empty());
                assert(v@.build =~= Seq::<Seq<char>>::empty());
                assert(v@ =~~= spec_parse(s@).unwrap());
            }
            return Ok(v);
        }
        let ck = s.get_char(k);
        if ck == '-' {
            let (pre, k2) = match parse_idents_exec(s, k + 1, n, true) {
                None => {
                    return Err(InvalidVersion);
                },
                Some(p) => p,
            };
            proof {
                lemma_spec_parse_idents(s@, k + 1, true);
            }
            if k2 == n {
                let v = AddonVersion {
                    major,
                    minor,
                    patch,
                    pre,
                    build: Vec::new(),
                };
                proof {
                    assert(v@.build =~= Seq::<Seq<char>>::empty());
                    assert(v@ =~~= spec_parse(s@).unwrap());
                }
                return Ok(v);
            }
            if s.get_char(k2) == '+' {
                let (build, k3) = match parse_idents_exec(s, k2 + 1, n, false) {
                    None => {
                        return Err(InvalidVersion);
                    },
                    Some(p) => p,
                };
                proof {
                    lemma_spec_parse_idents(s@, k2 + 1, false);
                }
                if k3 == n {
                    let v = AddonVersion { major, minor, patch, pre, build };
                    proof {
                        assert(v@ =~~= spec_parse(s@).unwrap());
                    }
                    return Ok(v);
                }
                return Err(InvalidVersion);
            }
            return Err(InvalidVersion);
        }
        if ck == '+' {
            let (build, k3) = match parse_idents_exec(s, k + 1, n, false) {
                None => {
                    return Err(InvalidVersion);
                },
                Some(p) => p,
            };
            proof {
                lemma_spec_parse_idents(s@, k + 1, false);
            }
            if k3 == n {
                let v = AddonVersion {
                    major,
                    minor,
                    patch,
                    pre: Vec::new(),
                    build,
                };
                proof {
                    assert(v@.pre =~= Seq::<Seq<char>>::empty());
                    assert(v@ =~~= spec_parse(s@).unwrap());
                }
                return Ok(v);
            }
            return Err(InvalidVersion);
        }
        Err(InvalidVersion)
    }
}

// ---------------------------------------------------------------------------
// Canonical rendering
// ---------------------------------------------------------------------------
pub open spec fn digit_char(d: int) -> char {
    if d == 0 {
        '0'
    } else if d == 1 {
        '1'
    } else if d == 2 {
        '2'
    } else if d == 3 {
        '3'
    } else if d == 4 {
        '4'
    } else if d == 5 {
        '5'
    } else if d == 6 {
        '6'
    } else if d == 7 {
        '7'
    } else if d == 8 {
        '8'
    } else {
        '9'
    }
}

/// Decimal rendering of a number, most significant digit first.
pub open spec fn dec_str(n: int) -> Seq<char>
    decreases n,
    when n >= 0
{
    if n < 10 {
        seq![digit_char(n)]
    } else {
        dec_str(n / 10).push(digit_char(n % 10))
    }
}

/// Identifiers joined by dots.
pub open spec fn join_idents(ids: Seq<Seq<char>>) -> Seq<char>
    decreases ids.len(),
{
    if ids.len() == 0 {
        Seq::empty()
    } else if ids.len() == 1 {
        ids[0]
    } else {
        ids[0] + seq!['.'] + join_idents(ids.skip(1))
    }
}

/// The canonical string of a version: the dotted triple, the pre-release
/// identifiers after a hyphen, the build identifiers after a plus sign.
pub open spec fn spec_canonical(v: VersionView) -> Seq<char> {
    dec_str(v.major) + seq!['.'] + dec_str(v.minor) + seq!['.'] + dec_str(v.patch) + (if v.pre.len()
        > 0 {
        seq!['-'] + join_idents(v.pre)
    } else {
        Seq::empty()
    }) + (if v.build.len() > 0 {
        seq!['+'] + join_idents(v.build)
    } else {
        Seq::empty()
    })
}

/// Relies on `String::push`: appends exactly the given character.
#[verifier::external_body]
pub(crate) fn push_char(s: &mut String, c: char)
    ensures
        final(s)@ == old(s)@.push(c),
{
    s.push(c);
}

fn digit_char_exec(d: u64) -> (r: char)
    requires
        d < 10,
    ensures
        r == digit_char(d as int),
{
    if d == 0 {
        '0'
    } else if d == 1 {
        '1'
    } else if d == 2 {
        '2'
    } else if d == 3 {
        '3'
    } else if d == 4 {
        '4'
    } else if d == 5 {
        '5'
    } else if d == 6 {
        '6'
    } else if d == 7 {
        '7'
    } else if d == 8 {
        '8'
    } else {
        '9'
    }
}

pub(crate) fn push_dec(out: &mut String, n: u64)
    ensures
        final(out)@ == old(out)@ + dec_str(n as int),
    decreases n,
{
    if n >= 10 {
        push_dec(out, n / 10);
        push_char(out, digit_char_exec(n % 10));
        proof {
            assert(out@ =~= old(out)@ + dec_str(n as int));
        }
    } else {
        push_char(out, digit_char_exec(n));
        proof {
            assert(out@ =~= old(out)@ + dec_str(n as int));
        }
    }
}

fn push_ident(out: &mut String, id: &Vec<char>)
    ensures
        final(out)@ == old(out)@ + id@,
{
    let m = id.len();
    for p in 0..m
        invariant
            m == id.len(),
            out@ =~= old(out)@ + id@.take(p as int),
    {
        push_char(out, id[p]);
        proof {
            assert(out@ =~= old(out)@ + id@.take(p + 1));
        }
    }
    proof {
        assert(out@ =~= old(out)@ + id@);
    }
}

fn push_idents(out: &mut String, ids: &Vec<Vec<char>>, from: usize)
    requires
        from < ids.len(),
    ensures
        final(out)@ == old(out)@ + join_idents(ids.deep_view().skip(from as int)),
    decreases ids.len() - from,
{
    push_ident(out, &ids[from]);
    proof {
        assert(ids.deep_view().skip(from as int)[0] =~= ids@[from as int]@);
    }
    if from + 1 == ids.len() {
        proof {
            assert(join_idents(ids.deep_view().skip(from as int)) =~= ids@[from as int]@);
        }
    } else {
        push_char(out, '.');
        push_idents(out, ids, from + 1);
        proof {
            assert(ids.deep_view().skip(from as int).skip(1) =~= ids.deep_view().skip(from + 1));
            assert(out@ =~= old(out)@ + join_idents(ids.deep_view().skip(from as int)));
        }
    }
}

impl AddonVersion {
    /// Renders the version canonically; the rendering is stable and parses
    /// back to an equal version.
    pub fn to_canonical_string(&self) -> (r: String)
        ensures
            r@ == spec_canonical(self@),
    {
        let mut out = String::new();
        push_dec(&mut out, self.major);
        push_char(&mut out, '.');
        push_dec(&mut out, self.minor);
        push_char(&mut out, '.');
        push_dec(&mut out, self.patch);
        if self.pre.len() > 0 {
            push_char(&mut out, '-');
            push_idents(&mut out, &self.pre, 0);
        }
        if self.build.len() > 0 {
            push_char(&mut out, '+');
            push_idents(&mut out, &self.build, 0);
        }
        proof {
            assert(self.pre.deep_view().skip(0) =~= self@.pre);
            assert(self.build.deep_view().skip(0) =~= self@.build);
            assert(out@ =~= spec_canonical(self@));
        }
        out
    }
}

// ---------------------------------------------------------------------------
// The canonical rendering of a plain triple parses back to the same version
// ---------------------------------------------------------------------------
proof fn lemma_dec_str_props(n: int)
    requires
        n >= 0,
    ensures
        dec_str(n).len() >= 1,
        forall|i: int| 0 <= i < dec_str(n).len() ==> is_digit(#[trigger] dec_str(n)[i]),
        digits_val(dec_str(n)) == n,
        dec_str(n).len() > 1 ==> dec_str(n)[0] != '0',
    decreases n,
{
    if n < 10 {
        assert(digits_val(dec_str(n)) == digits_val(seq![digit_char(n)].drop_last()) * 10
            + digit_val(seq![digit_char(n)].last()));
        assert(seq![digit_char(n)].drop_last() =~= Seq::<char>::empty());
    } else {
        lemma_dec_str_props(n / 10);
        let d = dec_str(n);
        assert(d == dec_str(n / 10).push(digit_char(n % 10)));
        assert(d.drop_last() =~= dec_str(n / 10));
        assert(d.last() == digit_char(n % 10));
        assert(digits_val(d) == (n / 10) * 10 + digit_val(digit_char(n % 10)));
        assert(d[0] == dec_str(n / 10)[0]);
        assert forall|i: int| 0 <= i < d.len() implies is_digit(#[trigger] d[i]) by {
            if i < d.len() - 1 {
                assert(d[i] == dec_str(n / 10)[i]);
            }
        }
        if n / 10 < 10 {
            assert(dec_str(n / 10) == seq![digit_char(n / 10)]);
            assert(n / 10 >= 1);
        } else {
            lemma_dec_str_props(n / 100);
            assert(dec_str(n / 10) == dec_str(n / 100).push(digit_char((n / 10) % 10)));
            assert(dec_str(n / 10).len() > 1);
        }
    }
}

proof fn lemma_take_digits_range(s: Seq<char>, p: int, q: int)
    requires
        0 <= p <= q <= s.len(),
        forall|k: int| p <= k < q ==> is_digit(s[k]),
        q == s.len() || !is_digit(s[q]),
    ensures
        take_digits(s, p) == q,
    decreases q - p,
{
    if p < q {
        lemma_take_digits_range(s, p + 1, q);
    }
}

proof fn lemma_parse_num_of_render(s: Seq<char>, p: int, x: int)
    requires
        0 <= x <= u64::MAX,
        0 <= p,
        p + dec_str(x).len() <= s.len(),
        s.subrange(p, p + dec_str(x).len()) == dec_str(x),
        p + dec_str(x).len() == s.len() || !is_digit(s[p + dec_str(x).len()]),
    ensures
        spec_parse_num(s, p) == Some((x, p + dec_str(x).len())),
{
    lemma_dec_str_props(x);
    let q = p + dec_str(x).len();
    assert forall|k: int| p <= k < q implies is_digit(s[k]) by {
        assert(s.subrange(p, q)[k - p] == s[k]);
        assert(is_digit(dec_str(x)[k - p]));
    }
    lemma_take_digits_range(s, p, q);
    assert(s[p] == dec_str(x)[0]);
    assert(digits_val(s.subrange(p, q)) == x);
}

/// The canonical string of a plain numeric triple parses back to exactly
/// that version; in particular the two compare `Equal`.
pub proof fn lemma_parse_canonical_triplet(a: u64, b: u64, c: u64)
    ensures
        spec_parse(spec_canonical(VersionView::from_triplet(a as int, b as int, c as int)))
            == Some(VersionView::from_triplet(a as int, b as int, c as int)),
        spec_compare(
            spec_parse(
                spec_canonical(VersionView::from_triplet(a as int, b as int, c as int)),
            ).unwrap(),
            VersionView::from_triplet(a as int, b as int, c as int),
        ) == VersionOrdering::Equal,
{
    let v = VersionView::from_triplet(a as int, b as int, c as int);
    lemma_parse_canonical(v);
    lemma_compare_reflexive(v);
}

proof fn lemma_take_ident_range(s: Seq<char>, p: int, q: int)
    requires
        0 <= p <= q <= s.len(),
        forall|k: int| p <= k < q ==> is_ident_char(s[k]),
        q == s.len() || !is_ident_char(s[q]),
    ensures
        take_ident(s, p) == q,
    decreases q - p,
{
    if p < q {
        lemma_take_ident_range(s, p + 1, q);
    }
}

proof fn lemma_parse_idents_of_join(s: Seq<char>, p: int, ids: Seq<Seq<char>>, pre: bool)
    requires
        ids.len() > 0,
        forall|m: int|
            0 <= m < ids.len() ==> (if pre {
                wf_pre_ident(#[trigger] ids[m])
            } else {
                wf_build_ident(ids[m])
            }),
        0 <= p,
        p + join_idents(ids).len() <= s.len(),
        s.subrange(p, p + join_idents(ids).len()) == join_idents(ids),
        p + join_idents(ids).len() == s.len() || (!is_ident_char(
            s[p + join_idents(ids).len()],
        ) && s[p + join_idents(ids).len()] != '.'),
    ensures
        spec_parse_idents(s, p, pre) == Some((ids, p + join_idents(ids).len())),
    decreases ids.len(),
{
    let j0 = join_idents(ids);
    let q = p + j0.len();
    let id0 = ids[0];
    let l0 = id0.len() as int;
    assert(wf_ident(id0));
    if ids.len() == 1 {
        assert(j0 == id0);
        assert forall|t: int| p <= t < q implies is_ident_char(s[t]) && s[t] == id0[t - p] by {
            assert(s.subrange(p, q)[t - p] == s[t]);
        }
        lemma_take_ident_range(s, p, q);
        assert(take_ident(s, p) == q);
        assert(s.subrange(p, q) == id0);
        assert(seq![s.subrange(p, take_ident(s, p))] =~= ids);
    } else {
        let rest_ids = ids.skip(1);
        let rest = join_idents(rest_ids);
        assert(j0 == id0 + seq!['.'] + rest);
        assert forall|t: int| p <= t < p + l0 implies is_ident_char(s[t]) && s[t] == id0[t - p] by {
            assert(s.subrange(p, q)[t - p] == s[t]);
            assert(j0[t - p] == id0[t - p]);
        }
        assert(j0[l0] == '.');
        assert(s.subrange(p, q)[l0] == s[p + l0]);
        assert(s[p + l0] == '.');
        assert(!is_ident_char('.'));
        lemma_take_ident_range(s, p, p + l0);
        assert(take_ident(s, p) == p + l0);
        assert(s.subrange(p, p + l0) =~= id0);
        assert forall|m: int|
            0 <= m < rest_ids.len() implies (if pre {
                wf_pre_ident(#[trigger] rest_ids[m])
            } else {
                wf_build_ident(rest_ids[m])
            }) by {
            assert(rest_ids[m] == ids[m + 1]);
        }
        assert(s.subrange(p + l0 + 1, q) =~= rest) by {
            assert forall|t: int| 0 <= t < q - (p + l0 + 1) implies s.subrange(
                p + l0 + 1,
                q,
            )[t] == rest[t] by {
                assert(s.subrange(p + l0 + 1, q)[t] == s[p + l0 + 1 + t]);
                assert(s.subrange(p, q)[l0 + 1 + t] == s[p + l0 + 1 + t]);
                assert(j0[l0 + 1 + t] == rest[t]);
            }
        }
        lemma_parse_idents_of_join(s, p + l0 + 1, rest_ids, pre);
        assert(spec_parse_idents(s, p + l0 + 1, pre) == Some((rest_ids, q)));
        assert(p + l0 < s.len());
        assert(seq![id0] + rest_ids =~= ids);
    }
}

/// The canonical rendering of any well-formed version parses back to
/// exactly that version: rendering loses nothing.
pub proof fn lemma_parse_canonical(v: VersionView)
    requires
        v.wf(),
    ensures
        spec_parse(spec_canonical(v)) == Some(v),
{
    let da = dec_str(v.major);
    let db = dec_str(v.minor);
    let dc = dec_str(v.patch);
    lemma_dec_str_props(v.major);
    lemma_dec_str_props(v.minor);
    lemma_dec_str_props(v.patch);
    let base = da + seq!['.'] + db + seq!['.'] + dc;
    let pre_seg: Seq<char> = if v.pre.len() > 0 {
        seq!['-'] + join_idents(v.pre)
    } else {
        Seq::empty()
    };
    let build_seg: Seq<char> = if v.build.len() > 0 {
        seq!['+'] + join_idents(v.build)
    } else {
        Seq::empty()
    };
    let s = spec_canonical(v);
    assert(s =~= base + pre_seg + build_seg);
    let la = da.len() as int;
    let lb = db.len() as int;
    let lc = dc.len() as int;
    let k = la + 1 + lb + 1 + lc;
    let k2 = k + pre_seg.len() as int;
    assert(s.len() == k + pre_seg.len() + build_seg.len());

    // the numeric triple
    assert(s.subrange(0, la) =~= da);
    assert(s[la] == '.');
    assert(!is_digit('.'));
    lemma_parse_num_of_render(s, 0, v.major);
    assert(s.subrange(la + 1, la + 1 + lb) =~= db);
    assert(s[la + 1 + lb] == '.');
    lemma_parse_num_of_render(s, la + 1, v.minor);
    assert(s.subrange(la + 1 + lb + 1, k) =~= dc);
    if k < s.len() {
        if v.pre.len() > 0 {
            assert(s[k] == pre_seg[0]);
            assert(!is_digit('-'));
        } else {
            assert(s[k] == build_seg[0]);
            assert(!is_digit('+'));
        }
    }
    lemma_parse_num_of_render(s, la + 1 + lb + 1, v.patch);
    assert(spec_parse_num(s, la + 1 + lb + 1) == Some((v.patch, k)));

    // the pre-release identifiers
    if v.pre.len() > 0 {
        assert(s[k] == '-');
        let jp = join_idents(v.pre);
        assert(s.subrange(k + 1, k2) =~= jp) by {
            assert forall|t: int| 0 <= t < jp.len() implies s.subrange(k + 1, k2)[t] == jp[t] by {
                assert(s.subrange(k + 1, k2)[t] == s[k + 1 + t]);
                assert(pre_seg[1 + t] == jp[t]);
                assert(s[k + 1 + t] == pre_seg[1 + t]);
            }
        }
        if k2 < s.len() {
            assert(s[k2] == build_seg[0]);
            assert(!is_ident_char('+') && '+' != '.');
        }
        lemma_parse_idents_of_join(s, k + 1, v.pre, true);
        assert(spec_parse_idents(s, k + 1, true) == Some((v.pre, k2)));
    }

    // the build identifiers
    if v.build.len() > 0 {
        assert(s[k2] == build_seg[0]);
        assert(s[k2] == '+');
        let jb = join_idents(v.build);
        assert(s.subrange(k2 + 1, s.len() as int) =~= jb) by {
            assert forall|t: int| 0 <= t < jb.len() implies s.subrange(
                k2 + 1,
                s.len() as int,
            )[t] == jb[t] by {
                assert(s.subrange(k2 + 1, s.len() as int)[t] == s[k2 + 1 + t]);
                assert(build_seg[1 + t] == jb[t]);
                assert(s[k2 + 1 + t] == build_seg[1 + t]);
            }
        }
        lemma_parse_idents_of_join(s, k2 + 1, v.build, false);
        assert(spec_parse_idents(s, k2 + 1, false) == Some((v.build, s.len() as int)));
    }

    if v.pre.len() == 0 && v.build.len() == 0 {
        assert(k == s.len());
        assert(spec_parse(s).unwrap() =~~= v);
    } else if v.pre.len() > 0 && v.build.len() == 0 {
        assert(k2 == s.len());
        assert(spec_parse(s).unwrap() =~~= v);
    } else if v.pre.len() == 0 {
        assert(k2 == k);
        assert(spec_parse(s).unwrap() =~~= v);
    } else {
        assert(spec_parse(s).unwrap() =~~= v);
    }
}


/// The canonical rendering is faithful: two well-formed versions with the
/// same rendering are the same version.
pub proof fn lemma_canonical_injective(v1: VersionView, v2: VersionView)
    requires
        v1.wf(),
        v2.wf(),
        spec_canonical(v1) == spec_canonical(v2),
    ensures
        v1 == v2,
{
    lemma_parse_canonical(v1);
    lemma_parse_canonical(v2);
}

} // verus!
