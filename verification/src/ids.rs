//! Identities of sources, projects, Runs, Metrics and the composite Run
//! reference that keeps identical native ids from different sources apart.

use vstd::prelude::*;
use vstd::std_specs::cmp::PartialEqSpecImpl;
use vstd::utf8::encode_utf8;

use crate::text::{chars_of, decimal, digit_char, is_digit, push_char, push_decimal};

verus! {

/// Stable viewer-local identity for one imported native source.
#[derive(Clone, Debug, Hash)]
pub struct DataSourceId(String);

/// Identity of a project inside one native source.
#[derive(Clone, Debug, Hash)]
pub struct ProjectId(String);

/// Identity of a Run inside one native source.
#[derive(Clone, Debug, Hash)]
pub struct RunId(String);

/// Name of one logged Metric.
#[derive(Clone, Debug, Hash)]
pub struct MetricKey(String);

impl View for DataSourceId {
    type V = Seq<char>;

    closed spec fn view(&self) -> Seq<char> {
        self.0@
    }
}

impl View for ProjectId {
    type V = Seq<char>;

    closed spec fn view(&self) -> Seq<char> {
        self.0@
    }
}

impl View for RunId {
    type V = Seq<char>;

    closed spec fn view(&self) -> Seq<char> {
        self.0@
    }
}

impl View for MetricKey {
    type V = Seq<char>;

    closed spec fn view(&self) -> Seq<char> {
        self.0@
    }
}

/// A filesystem path, carried through unread.
#[verifier::external_type_specification]
#[verifier::external_body]
pub struct ExPathBuf(std::path::PathBuf);

/// What `Path::to_string_lossy` returns for a path: its text, with any
/// sequence that is not valid Unicode replaced by U+FFFD. It depends on what
/// the path holds alone.
pub uninterp spec fn path_lossy_text(path: std::path::PathBuf) -> Seq<char>;

/// Wraps `Path::to_string_lossy` (through `PathBuf`'s deref) and takes the
/// text as an owned string: the result is the path's lossy text, named
/// `path_lossy_text`. Which characters that is for a given path is left to
/// the name; the path itself has no character view.
#[verifier::external_body]
fn path_text(path: &std::path::PathBuf) -> (text: String)
    ensures
        text@ == path_lossy_text(*path),
{
    path.to_string_lossy().into_owned()
}

/// The directory a folder picker answered with: the first selected path,
/// or none when the picker was cancelled or nothing was selected.
pub fn picked_directory(paths: Option<Vec<std::path::PathBuf>>) -> (picked: Option<std::path::PathBuf>)
    ensures
        picked == match paths {
            Some(v) => if v@.len() > 0 {
                Some(v@[0])
            } else {
                None
            },
            None => None,
        },
{
    match paths {
        Some(mut v) => {
            if v.len() > 0 {
                Some(v.remove(0))
            } else {
                None
            }
        },
        None => None,
    }
}

impl DataSourceId {
    /// The identity of the source stored at `path`: the path as text.
    pub fn from_path(path: &std::path::PathBuf) -> (id: Self)
        ensures
            id@ == path_lossy_text(*path),
    {
        DataSourceId(path_text(path))
    }

    /// Wraps an already-known source identity.
    pub fn from_string(value: String) -> (id: Self)
        ensures
            id@ == value@,
    {
        DataSourceId(value)
    }

    /// The identity as text.
    pub fn as_str(&self) -> (s: &str)
        ensures
            s@ == self@,
    {
        self.0.as_str()
    }

    /// A copy with the same identity.
    pub fn duplicate(&self) -> (copy: Self)
        ensures
            copy == *self,
    {
        DataSourceId(self.0.clone())
    }

    /// Whether both identities are the same text.
    pub fn same_as(&self, other: &Self) -> (same: bool)
        ensures
            same == (self@ == other@),
    {
        self.0 == other.0
    }
}

impl ProjectId {
    /// Wraps a project identity.
    pub fn from_string(value: String) -> (id: Self)
        ensures
            id@ == value@,
    {
        ProjectId(value)
    }

    /// The identity as text.
    pub fn as_str(&self) -> (s: &str)
        ensures
            s@ == self@,
    {
        self.0.as_str()
    }

    /// A copy with the same identity.
    pub fn duplicate(&self) -> (copy: Self)
        ensures
            copy == *self,
    {
        ProjectId(self.0.clone())
    }

    /// Whether both identities are the same text.
    pub fn same_as(&self, other: &Self) -> (same: bool)
        ensures
            same == (self@ == other@),
    {
        self.0 == other.0
    }
}

impl RunId {
    /// Wraps a Run identity.
    pub fn from_string(value: String) -> (id: Self)
        ensures
            id@ == value@,
    {
        RunId(value)
    }

    /// The identity as text.
    pub fn as_str(&self) -> (s: &str)
        ensures
            s@ == self@,
    {
        self.0.as_str()
    }

    /// A copy with the same identity.
    pub fn duplicate(&self) -> (copy: Self)
        ensures
            copy == *self,
    {
        RunId(self.0.clone())
    }

    /// Whether both identities are the same text.
    pub fn same_as(&self, other: &Self) -> (same: bool)
        ensures
            same == (self@ == other@),
    {
        self.0 == other.0
    }
}

impl MetricKey {
    /// Wraps a Metric name.
    pub fn from_string(value: String) -> (key: Self)
        ensures
            key@ == value@,
    {
        MetricKey(value)
    }

    /// The name as text.
    pub fn as_str(&self) -> (s: &str)
        ensures
            s@ == self@,
    {
        self.0.as_str()
    }

    /// A copy with the same name.
    pub fn duplicate(&self) -> (copy: Self)
        ensures
            copy == *self,
    {
        MetricKey(self.0.clone())
    }

    /// Whether both names are the same text.
    pub fn same_as(&self, other: &Self) -> (same: bool)
        ensures
            same == (self@ == other@),
    {
        self.0 == other.0
    }
}

impl PartialEq for DataSourceId {
    fn eq(&self, other: &Self) -> (same: bool) {
        self.0 == other.0
    }
}

impl PartialEqSpecImpl for DataSourceId {
    open spec fn obeys_eq_spec() -> bool {
        true
    }

    open spec fn eq_spec(&self, other: &Self) -> bool {
        self@ == other@
    }
}

impl PartialEq for ProjectId {
    fn eq(&self, other: &Self) -> (same: bool) {
        self.0 == other.0
    }
}

impl PartialEqSpecImpl for ProjectId {
    open spec fn obeys_eq_spec() -> bool {
        true
    }

    open spec fn eq_spec(&self, other: &Self) -> bool {
        self@ == other@
    }
}

impl PartialEq for RunId {
    fn eq(&self, other: &Self) -> (same: bool) {
        self.0 == other.0
    }
}

impl PartialEqSpecImpl for RunId {
    open spec fn obeys_eq_spec() -> bool {
        true
    }

    open spec fn eq_spec(&self, other: &Self) -> bool {
        self@ == other@
    }
}

impl PartialEq for MetricKey {
    fn eq(&self, other: &Self) -> (same: bool) {
        self.0 == other.0
    }
}

impl PartialEqSpecImpl for MetricKey {
    open spec fn obeys_eq_spec() -> bool {
        true
    }

    open spec fn eq_spec(&self, other: &Self) -> bool {
        self@ == other@
    }
}


/// Collision-free identity for one Run selected from an imported source.
#[derive(Clone, Debug, Hash)]
pub struct RunRef {
    pub source_id: DataSourceId,
    pub project_id: ProjectId,
    pub run_id: RunId,
}

/// The texts that make up a [`RunRef`].
pub struct RunRefView {
    pub source_id: Seq<char>,
    pub project_id: Seq<char>,
    pub run_id: Seq<char>,
}

impl View for RunRef {
    type V = RunRefView;

    open spec fn view(&self) -> RunRefView {
        RunRefView { source_id: self.source_id@, project_id: self.project_id@, run_id: self.run_id@ }
    }
}

/// Number of bytes in the UTF-8 encoding of `s` (what `str::len` returns).
pub open spec fn utf8_len(s: Seq<char>) -> nat {
    encode_utf8(s).len()
}

/// `s` preceded by its UTF-8 byte length in decimal and a colon.
pub open spec fn length_prefixed(s: Seq<char>) -> Seq<char> {
    decimal(utf8_len(s)) + seq![':'] + s
}

/// The cache key of a Run reference: its three parts, each length-prefixed.
pub open spec fn cache_key_spec(r: RunRefView) -> Seq<char> {
    length_prefixed(r.source_id) + length_prefixed(r.project_id) + length_prefixed(r.run_id)
}

impl RunRef {
    /// Combines a source, a project and a Run identity.
    pub fn new(source_id: DataSourceId, project_id: ProjectId, run_id: RunId) -> (r: Self)
        ensures
            r@ == (RunRefView { source_id: source_id@, project_id: project_id@, run_id: run_id@ }),
    {
        RunRef { source_id, project_id, run_id }
    }

    /// A copy with the same identity.
    pub fn duplicate(&self) -> (copy: Self)
        ensures
            copy == *self,
    {
        RunRef {
            source_id: self.source_id.duplicate(),
            project_id: self.project_id.duplicate(),
            run_id: self.run_id.duplicate(),
        }
    }

    /// Whether both references name the same Run of the same source.
    pub fn same_as(&self, other: &Self) -> (same: bool)
        ensures
            same == (self@ == other@),
    {
        self.source_id.same_as(&other.source_id) && self.project_id.same_as(&other.project_id)
            && self.run_id.same_as(&other.run_id)
    }

    /// Text key that differs whenever the references differ.
    pub fn cache_key(&self) -> (key: String)
        ensures
            key@ == cache_key_spec(self@),
    {
        let mut chars: Vec<char> = Vec::new();
        push_length_prefixed(&mut chars, self.source_id.as_str());
        push_length_prefixed(&mut chars, self.project_id.as_str());
        push_length_prefixed(&mut chars, self.run_id.as_str());
        proof {
            assert(chars@ =~= cache_key_spec(self@));
        }
        string_from_chars(&chars)
    }
}

impl PartialEq for RunRef {
    fn eq(&self, other: &Self) -> (same: bool) {
        self.source_id == other.source_id && self.project_id == other.project_id && self.run_id
            == other.run_id
    }
}

impl PartialEqSpecImpl for RunRef {
    open spec fn obeys_eq_spec() -> bool {
        true
    }

    open spec fn eq_spec(&self, other: &Self) -> bool {
        self@ == other@
    }
}

fn push_length_prefixed(out: &mut Vec<char>, s: &str)
    ensures
        final(out)@ == old(out)@ + length_prefixed(s@),
{
    let byte_len = s.as_bytes().len();
    assert(byte_len == utf8_len(s@));
    push_decimal(out, byte_len as u128);
    let ghost after_digits = out@;
    assert(after_digits == old(out)@ + decimal(utf8_len(s@)));
    out.push(':');
    let chars = chars_of(s);
    let ghost before = out@;
    let mut i: usize = 0;
    while i < chars.len()
        invariant
            i <= chars@.len(),
            chars@ == s@,
            out@ == before + chars@.take(i as int),
        decreases chars@.len() - i,
    {
        out.push(chars[i]);
        proof {
            assert(chars@.take(i + 1) =~= chars@.take(i as int).push(chars@[i as int]));
        }
        i = i + 1;
    }
    proof {
        assert(chars@.take(i as int) =~= chars@);
        assert(before =~= after_digits.push(':'));
        assert(out@ =~= old(out)@ + length_prefixed(s@));
    }
}

/// A string holding exactly the given characters.
pub fn string_from_chars(chars: &Vec<char>) -> (s: String)
    ensures
        s@ == chars@,
{
    let mut s = String::new();
    let mut i: usize = 0;
    while i < chars.len()
        invariant
            i <= chars@.len(),
            s@ == chars@.take(i as int),
        decreases chars@.len() - i,
    {
        push_char(&mut s, chars[i]);
        proof {
            assert(chars@.take(i + 1) =~= chars@.take(i as int).push(chars@[i as int]));
        }
        i = i + 1;
    }
    proof {
        assert(chars@.take(i as int) =~= chars@);
    }
    s
}

// ----- The cache key is injective -----

proof fn lemma_decimal_digits(n: nat)
    ensures
        decimal(n).len() >= 1,
        forall|i: int| 0 <= i < decimal(n).len() ==> is_digit(#[trigger] decimal(n)[i]),
        n >= 10 ==> decimal(n).len() >= 2,
    decreases n,
{
    if n >= 10 {
        lemma_decimal_digits(n / 10);
    }
}

proof fn lemma_decimal_injective(n: nat, m: nat)
    requires
        decimal(n) == decimal(m),
    ensures
        n == m,
    decreases n,
{
    lemma_decimal_digits(n);
    lemma_decimal_digits(m);
    if n >= 10 && m >= 10 {
        let dn = decimal(n);
        assert(dn.drop_last() == decimal(n / 10));
        assert(decimal(m).drop_last() == decimal(m / 10));
        lemma_decimal_injective(n / 10, m / 10);
        assert(dn.last() == digit_char(n % 10));
        assert(decimal(m).last() == digit_char(m % 10));
    } else if n < 10 && m < 10 {
        assert(decimal(n)[0] == digit_char(n));
        assert(decimal(m)[0] == digit_char(m));
    }
}

pub proof fn lemma_encode_concat(a: Seq<char>, b: Seq<char>)
    ensures
        encode_utf8(a + b) == encode_utf8(a) + encode_utf8(b),
    decreases a.len(),
{
    if a.len() == 0 {
        assert(a + b =~= b);
        assert(encode_utf8(a) =~= Seq::<u8>::empty());
        assert(encode_utf8(a) + encode_utf8(b) =~= encode_utf8(b));
    } else {
        assert((a + b).drop_first() =~= a.drop_first() + b);
        assert((a + b)[0] == a[0]);
        lemma_encode_concat(a.drop_first(), b);
        assert(encode_utf8(a + b) =~= encode_utf8(a) + encode_utf8(b));
    }
}

pub proof fn lemma_encode_nonempty(s: Seq<char>)
    requires
        s.len() > 0,
    ensures
        encode_utf8(s).len() > 0,
{
    let c = s[0] as u32;
    assert(vstd::utf8::encode_scalar(c).len() >= 1);
}

/// Two prefixes of the same text with equal UTF-8 length are the same.
proof fn lemma_same_byte_length_prefix(s1: Seq<char>, x: Seq<char>, s2: Seq<char>, y: Seq<char>)
    requires
        s1 + x == s2 + y,
        utf8_len(s1) == utf8_len(s2),
    ensures
        s1 == s2,
        x == y,
{
    let whole = s1 + x;
    if s1.len() < s2.len() {
        let t = s2.subrange(s1.len() as int, s2.len() as int);
        assert(s2 =~= s1 + t) by {
            assert forall|i: int| 0 <= i < s1.len() implies s2[i] == s1[i] by {
                assert(whole[i] == s1[i]);
                assert((s2 + y)[i] == s2[i]);
            }
        }
        lemma_encode_concat(s1, t);
        lemma_encode_nonempty(t);
    } else if s2.len() < s1.len() {
        let t = s1.subrange(s2.len() as int, s1.len() as int);
        assert(s1 =~= s2 + t) by {
            assert forall|i: int| 0 <= i < s2.len() implies s1[i] == s2[i] by {
                assert(whole[i] == s1[i]);
                assert((s2 + y)[i] == s2[i]);
            }
        }
        lemma_encode_concat(s2, t);
        lemma_encode_nonempty(t);
    } else {
        assert(s1 =~= s2) by {
            assert forall|i: int| 0 <= i < s1.len() implies s1[i] == s2[i] by {
                assert(whole[i] == s1[i]);
                assert((s2 + y)[i] == s2[i]);
            }
        }
        assert(whole.len() == (s2 + y).len());
        assert(x.len() == y.len());
        assert(x =~= y) by {
            assert forall|i: int| 0 <= i < x.len() implies x[i] == y[i] by {
                assert(whole[s1.len() + i] == x[i]);
                assert((s2 + y)[s2.len() + i] == y[i]);
            }
        }
    }
}

/// A length-prefixed part can be read back from the front of a key.
proof fn lemma_length_prefixed_unique(s1: Seq<char>, x: Seq<char>, s2: Seq<char>, y: Seq<char>)
    requires
        length_prefixed(s1) + x == length_prefixed(s2) + y,
    ensures
        s1 == s2,
        x == y,
{
    let d1 = decimal(utf8_len(s1));
    let d2 = decimal(utf8_len(s2));
    let r1 = s1 + x;
    let r2 = s2 + y;
    lemma_decimal_digits(utf8_len(s1));
    lemma_decimal_digits(utf8_len(s2));
    let whole = length_prefixed(s1) + x;
    assert(whole =~= d1 + (seq![':'] + r1));
    assert(whole =~= d2 + (seq![':'] + r2));
    if d1.len() < d2.len() {
        assert(whole[d1.len() as int] == ':');
        assert(whole[d1.len() as int] == d2[d1.len() as int]);
        assert(is_digit(d2[d1.len() as int]));
    } else if d2.len() < d1.len() {
        assert(whole[d2.len() as int] == ':');
        assert(whole[d2.len() as int] == d1[d2.len() as int]);
        assert(is_digit(d1[d2.len() as int]));
    } else {
        assert(d1 =~= d2) by {
            assert forall|i: int| 0 <= i < d1.len() implies d1[i] == d2[i] by {
                assert(whole[i] == d1[i]);
                assert(whole[i] == d2[i]);
            }
        }
        lemma_decimal_injective(utf8_len(s1), utf8_len(s2));
        assert(r1 =~= r2) by {
            assert forall|i: int| 0 <= i < r1.len() implies r1[i] == r2[i] by {
                assert(whole[d1.len() + 1 + i] == r1[i]);
                assert(whole[d2.len() + 1 + i] == r2[i]);
            }
        }
        lemma_same_byte_length_prefix(s1, x, s2, y);
    }
}

/// Distinct Run references never share a cache key: the key determines the
/// source, project and Run identity it was made from.
pub proof fn cache_key_is_injective(a: RunRefView, b: RunRefView)
    requires
        cache_key_spec(a) == cache_key_spec(b),
    ensures
        a == b,
{
    let pa = length_prefixed(a.project_id) + length_prefixed(a.run_id);
    let pb = length_prefixed(b.project_id) + length_prefixed(b.run_id);
    assert(cache_key_spec(a) =~= length_prefixed(a.source_id) + pa);
    assert(cache_key_spec(b) =~= length_prefixed(b.source_id) + pb);
    lemma_length_prefixed_unique(a.source_id, pa, b.source_id, pb);
    lemma_length_prefixed_unique(a.project_id, length_prefixed(a.run_id), b.project_id, length_prefixed(b.run_id));
    assert(length_prefixed(a.run_id) + Seq::<char>::empty() =~= length_prefixed(a.run_id));
    assert(length_prefixed(b.run_id) + Seq::<char>::empty() =~= length_prefixed(b.run_id));
    lemma_length_prefixed_unique(a.run_id, Seq::<char>::empty(), b.run_id, Seq::<char>::empty());
}

} // verus!
