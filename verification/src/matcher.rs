//! Classifies candidate address strings against a configured, ordered list of
//! patterns: by prefix (after a fixed leading scheme character), by suffix, or
//! by containment anywhere, with optional case-insensitivity.

use vstd::prelude::*;
use vstd::string::*;

verus! {

/// Why a pattern configuration was rejected by [`PatternMatcher::validate`].
pub enum ValidationError {
    /// The pattern list is empty.
    NoPatterns,
    /// In prefix mode, this pattern does not begin with one of 'e','f','g','h','i'.
    InvalidStartPattern { pattern: String },
    /// `pattern` holds `character` at the 1-based `position`, and `character`
    /// is outside the Base58 alphabet.
    InvalidCharacter { character: char, pattern: String, position: usize },
}

/// The Base58 alphabet: digits 1-9 and ASCII letters, excluding the visually
/// ambiguous '0', 'O', 'I' and 'l'.
pub open spec fn is_base58(c: char) -> bool {
    &&& (('1' as u32) <= (c as u32) <= ('9' as u32) || ('A' as u32) <= (c as u32) <= ('Z' as u32)
        || ('a' as u32) <= (c as u32) <= ('z' as u32))
    &&& c != 'O'
    &&& c != 'I'
    &&& c != 'l'
}

/// The characters a prefix-mode pattern may start with.
pub open spec fn start_char_ok(c: char) -> bool {
    c == 'e' || c == 'f' || c == 'g' || c == 'h' || c == 'i'
}

/// A pattern passes the prefix-mode leading-character check when it is empty
/// or starts with an allowed character.
pub open spec fn pattern_start_ok(p: Seq<char>) -> bool {
    p.len() == 0 || start_char_ok(p[0])
}

/// Every character of the pattern belongs to the Base58 alphabet.
pub open spec fn pattern_base58_ok(p: Seq<char>) -> bool {
    forall|i: int| 0 <= i < p.len() ==> is_base58(#[trigger] p[i])
}

/// Position `i` holds the first non-Base58 character of `p`.
pub open spec fn first_bad_char_at(p: Seq<char>, i: int) -> bool {
    &&& 0 <= i < p.len()
    &&& !is_base58(p[i])
    &&& forall|j: int| 0 <= j < i ==> is_base58(#[trigger] p[j])
}

/// Pattern `k` is the first of `pats` to fail the prefix-mode leading-character
/// check.
pub open spec fn first_start_violation(pats: Seq<Seq<char>>, k: int) -> bool {
    &&& 0 <= k < pats.len()
    &&& !pattern_start_ok(pats[k])
    &&& forall|j: int| 0 <= j < k ==> pattern_start_ok(#[trigger] pats[j])
}

/// Pattern `k` is the first of `pats` to hold a non-Base58 character, and `i`
/// is the first offending position within it.
pub open spec fn first_base58_violation(pats: Seq<Seq<char>>, k: int, i: int) -> bool {
    &&& 0 <= k < pats.len()
    &&& first_bad_char_at(pats[k], i)
    &&& forall|j: int| 0 <= j < k ==> pattern_base58_ok(#[trigger] pats[j])
}

/// What `str::to_lowercase` returns for a string with these characters.
pub uninterp spec fn lower_of(s: Seq<char>) -> Seq<char>;

/// A pattern as stored: lowercased at construction when matching is
/// case-insensitive, kept as given otherwise.
pub open spec fn stored_pattern(p: Seq<char>, case_sensitive: bool) -> Seq<char> {
    if case_sensitive {
        p
    } else {
        lower_of(p)
    }
}

/// `p` occurs in `s` starting at position `i`.
pub open spec fn occurs_at(s: Seq<char>, p: Seq<char>, i: int) -> bool {
    &&& 0 <= i
    &&& i + p.len() <= s.len()
    &&& s.subrange(i, i + p.len() as int) == p
}

/// `s` starts with `p`.
pub open spec fn starts_with(s: Seq<char>, p: Seq<char>) -> bool {
    p.len() <= s.len() && occurs_at(s, p, 0)
}

/// `s` ends with `p`.
pub open spec fn ends_with(s: Seq<char>, p: Seq<char>) -> bool {
    p.len() <= s.len() && occurs_at(s, p, s.len() - p.len())
}

/// `p` occurs somewhere in `s`.
pub open spec fn occurs_in(s: Seq<char>, p: Seq<char>) -> bool {
    exists|i: int| occurs_at(s, p, i)
}

/// How pattern `p` is held against the (normalized) candidate `s` in each of
/// the three modes: prefix, suffix, or anywhere.
pub open spec fn mode_matches(start: bool, end: bool, s: Seq<char>, p: Seq<char>) -> bool {
    if start {
        starts_with(s, p)
    } else if end {
        ends_with(s, p)
    } else {
        occurs_in(s, p)
    }
}

/// Pattern `k` matches the candidate and no earlier-declared pattern does.
pub open spec fn first_match_at(
    pats: Seq<Seq<char>>,
    start: bool,
    end: bool,
    s: Seq<char>,
    k: int,
) -> bool {
    &&& 0 <= k < pats.len()
    &&& mode_matches(start, end, s, pats[k])
    &&& forall|j: int| 0 <= j < k ==> !mode_matches(start, end, s, #[trigger] pats[j])
}

/// No pattern in the list matches the candidate.
pub open spec fn no_match(pats: Seq<Seq<char>>, start: bool, end: bool, s: Seq<char>) -> bool {
    forall|k: int| 0 <= k < pats.len() ==> !mode_matches(start, end, s, #[trigger] pats[k])
}

/// Relies on str::to_lowercase: the result depends on the characters alone.
#[verifier::external_body]
fn lowercase(s: &str) -> (r: String)
    ensures
        r@ == lower_of(s@),
{
    s.to_lowercase()
}

/// Compares `p` character by character against `s` at offset `off`.
fn matches_at(s: &str, p: &str, off: usize) -> (r: bool)
    requires
        off + p@.len() <= s@.len(),
        s@.len() <= usize::MAX,
    ensures
        r == occurs_at(s@, p@, off as int),
{
    let pn = p.unicode_len();
    let mut i: usize = 0;
    while i < pn
        invariant
            pn == p@.len(),
            off + pn <= s@.len() <= usize::MAX,
            i <= pn,
            forall|j: int| 0 <= j < i ==> s@[off + j] == p@[j],
        decreases pn - i,
    {
        if s.get_char(off + i) != p.get_char(i) {
            proof {
                assert(s@.subrange(off as int, off + pn as int)[i as int] == s@[off + i]);
            }
            return false;
        }
        i += 1;
    }
    proof {
        assert(s@.subrange(off as int, off + pn as int) =~= p@);
    }
    true
}

/// Whether `s` starts with `p`, by character comparison.
fn str_starts_with(s: &str, p: &str) -> (r: bool)
    ensures
        r == starts_with(s@, p@),
{
    let sn = s.unicode_len();
    let pn = p.unicode_len();
    if pn > sn {
        return false;
    }
    matches_at(s, p, 0)
}

/// Whether `s` ends with `p`, by character comparison.
fn str_ends_with(s: &str, p: &str) -> (r: bool)
    ensures
        r == ends_with(s@, p@),
{
    let sn = s.unicode_len();
    let pn = p.unicode_len();
    if pn > sn {
        return false;
    }
    matches_at(s, p, sn - pn)
}

/// Whether `p` occurs anywhere in `s`, by character comparison at every
/// offset.
fn str_contains_pat(s: &str, p: &str) -> (r: bool)
    ensures
        r == occurs_in(s@, p@),
{
    let sn = s.unicode_len();
    let pn = p.unicode_len();
    if pn > sn {
        proof {
            assert forall|i: int| !occurs_at(s@, p@, i) by {}
        }
        return false;
    }
    if pn == 0 {
        proof {
            assert(s@.subrange(0, 0) =~= p@);
            assert(occurs_at(s@, p@, 0));
        }
        return true;
    }
    let last = sn - pn;
    let mut i: usize = 0;
    while i <= last
        invariant
            pn == p@.len(),
            sn == s@.len(),
            1 <= pn <= sn,
            last == sn - pn,
            i <= last + 1,
            forall|j: int| 0 <= j < i ==> !occurs_at(s@, p@, j),
        decreases last + 1 - i,
    {
        if matches_at(s, p, i) {
            proof {
                assert(occurs_at(s@, p@, i as int));
            }
            return true;
        }
        i += 1;
    }
    proof {
        assert forall|j: int| !occurs_at(s@, p@, j) by {
            if 0 <= j <= last as int {
                assert(!occurs_at(s@, p@, j));
            }
        }
    }
    false
}

/// Decides whether a candidate address matches any of an ordered list of
/// patterns, in one of three modes: prefix (skipping the fixed leading
/// character), suffix, or anywhere. Immutable after construction.
pub struct PatternMatcher {
    patterns: Vec<String>,
    case_sensitive: bool,
    start: bool,
    end: bool,
}

impl PatternMatcher {
    /// The stored (already case-normalized) patterns, in declaration order.
    pub closed spec fn spec_patterns(self) -> Seq<Seq<char>> {
        self.patterns@.map_values(|p: String| p@)
    }

    pub closed spec fn spec_case_sensitive(self) -> bool {
        self.case_sensitive
    }

    pub closed spec fn spec_start(self) -> bool {
        self.start
    }

    pub closed spec fn spec_end(self) -> bool {
        self.end
    }

    /// Create a new matcher. When `case_sensitive` is false, every pattern is
    /// lowercased once, up front.
    pub fn new(patterns: Vec<String>, case_sensitive: bool, start: bool, end: bool) -> (r: Self)
        ensures
            r.spec_case_sensitive() == case_sensitive,
            r.spec_start() == start,
            r.spec_end() == end,
            r.spec_patterns().len() == patterns@.len(),
            forall|k: int|
                0 <= k < patterns@.len() ==> r.spec_patterns()[k] == stored_pattern(
                    #[trigger] patterns@[k]@,
                    case_sensitive,
                ),
    {
        if case_sensitive {
            Self { patterns, case_sensitive, start, end }
        } else {
            let mut lowered: Vec<String> = Vec::new();
            let mut i: usize = 0;
            while i < patterns.len()
                invariant
                    i <= patterns@.len(),
                    lowered@.len() == i,
                    forall|k: int|
                        0 <= k < i ==> lowered@[k]@ == lower_of(#[trigger] patterns@[k]@),
                decreases patterns@.len() - i,
            {
                lowered.push(lowercase(patterns[i].as_str()));
                i += 1;
            }
            Self { patterns: lowered, case_sensitive, start, end }
        }
    }

    /// Checks whether a character belongs to the Base58 alphabet.
    fn is_base58_char(c: char) -> (r: bool)
        ensures
            r == is_base58(c),
    {
        let u = c as u32;
        if c == '0' || c == 'O' || c == 'I' || c == 'l' {
            false
        } else {
            (('1' as u32) <= u && u <= ('9' as u32)) || (('A' as u32) <= u && u <= ('Z' as u32))
                || (('a' as u32) <= u && u <= ('z' as u32))
        }
    }

    /// Validates the stored configuration: at least one pattern must exist; in
    /// prefix mode every non-empty pattern must start with 'e', 'f', 'g', 'h'
    /// or 'i'; every character of every pattern must belong to the Base58
    /// alphabet. Errors report the first violation, in pattern order.
    pub fn validate(&self) -> (r: Result<(), ValidationError>)
        ensures
            r is Ok <==> (self.spec_patterns().len() > 0 && (self.spec_start()
                ==> forall|k: int|
                    0 <= k < self.spec_patterns().len() ==> pattern_start_ok(
                        #[trigger] self.spec_patterns()[k],
                    )) && (forall|k: int|
                0 <= k < self.spec_patterns().len() ==> pattern_base58_ok(
                    #[trigger] self.spec_patterns()[k],
                ))),
            (r matches Err(ValidationError::NoPatterns)) <==> self.spec_patterns().len() == 0,
            r matches Err(ValidationError::InvalidStartPattern { pattern }) ==> self.spec_start()
                && exists|k: int|
                #[trigger] first_start_violation(self.spec_patterns(), k) && pattern@
                    == self.spec_patterns()[k],
            r matches Err(ValidationError::InvalidCharacter { character, pattern, position })
                ==> (self.spec_start() ==> forall|k: int|
                0 <= k < self.spec_patterns().len() ==> pattern_start_ok(
                    #[trigger] self.spec_patterns()[k],
                )) && exists|k: int, i: int|
                #[trigger] first_base58_violation(self.spec_patterns(), k, i) && character
                    == self.spec_patterns()[k][i] && pattern@ == self.spec_patterns()[k] && position
                    == i + 1,
    {
        if self.patterns.len() == 0 {
            return Err(ValidationError::NoPatterns);
        }

        // In prefix mode, every non-empty pattern must begin with an allowed
        // second character of the address.
        if self.start {
            let mut k: usize = 0;
            while k < self.patterns.len()
                invariant
                    self.spec_start(),
                    k <= self.spec_patterns().len(),
                    self.spec_patterns().len() == self.patterns@.len(),
                    forall|j: int|
                        0 <= j < k ==> pattern_start_ok(#[trigger] self.spec_patterns()[j]),
                decreases self.patterns@.len() - k,
            {
                let pat = &self.patterns[k];
                if pat.as_str().unicode_len() > 0 {
                    let first_char = pat.as_str().get_char(0);
                    if !(first_char == 'e' || first_char == 'f' || first_char == 'g' || first_char
                        == 'h' || first_char == 'i') {
                        proof {
                            assert(first_start_violation(self.spec_patterns(), k as int));
                        }
                        return Err(
                            ValidationError::InvalidStartPattern { pattern: pat.clone() },
                        );
                    }
                }
                k += 1;
            }
        }

        // Every character of every pattern must belong to the Base58 alphabet.
        let mut k: usize = 0;
        while k < self.patterns.len()
            invariant
                k <= self.spec_patterns().len(),
                self.spec_patterns().len() == self.patterns@.len(),
                self.spec_start() ==> forall|j: int|
                    0 <= j < self.spec_patterns().len() ==> pattern_start_ok(
                        #[trigger] self.spec_patterns()[j],
                    ),
                forall|j: int|
                    0 <= j < k ==> pattern_base58_ok(#[trigger] self.spec_patterns()[j]),
            decreases self.patterns@.len() - k,
        {
            let pat = &self.patterns[k];
            let n = pat.as_str().unicode_len();
            let mut i: usize = 0;
            while i < n
                invariant
                    i <= n,
                    n == pat@.len(),
                    pat@ == self.spec_patterns()[k as int],
                    0 <= k < self.spec_patterns().len(),
                    self.spec_patterns().len() == self.patterns@.len(),
                    self.spec_start() ==> forall|j: int|
                        0 <= j < self.spec_patterns().len() ==> pattern_start_ok(
                            #[trigger] self.spec_patterns()[j],
                        ),
                    forall|j: int|
                        0 <= j < k ==> pattern_base58_ok(#[trigger] self.spec_patterns()[j]),
                    forall|j: int| 0 <= j < i ==> is_base58(#[trigger] pat@[j]),
                decreases n - i,
            {
                let c = pat.as_str().get_char(i);
                if !Self::is_base58_char(c) {
                    proof {
                        assert(first_bad_char_at(pat@, i as int));
                        assert(first_base58_violation(self.spec_patterns(), k as int, i as int));
                    }
                    return Err(
                        ValidationError::InvalidCharacter {
                            character: c,
                            pattern: pat.clone(),
                            position: i + 1,
                        },
                    );
                }
                i += 1;
            }
            proof {
                assert(pattern_base58_ok(self.spec_patterns()[k as int]));
            }
            k += 1;
        }

        Ok(())
    }

    /// True iff more than one pattern is configured; used by an external
    /// work-distribution strategy.
    pub fn has_multiple_patterns(&self) -> (r: bool)
        ensures
            r == (self.spec_patterns().len() > 1),
    {
        self.patterns.len() > 1
    }

    /// A candidate as it is held against the patterns: the leading character
    /// dropped when `skip_first` is set and the candidate is longer than one
    /// character, then lowercased when matching is case-insensitive.
    pub open spec fn spec_normalize(self, s: Seq<char>, skip_first: bool) -> Seq<char> {
        let t = if skip_first && s.len() > 1 {
            s.subrange(1, s.len() as int)
        } else {
            s
        };
        if self.spec_case_sensitive() {
            t
        } else {
            lower_of(t)
        }
    }

    /// The normalized form of a candidate under the configured mode: in
    /// prefix mode the leading character is skipped.
    pub open spec fn spec_checked(self, addr: Seq<char>) -> Seq<char> {
        self.spec_normalize(addr, self.spec_start())
    }

    /// Normalizes a candidate: optionally skips the first character, then
    /// lowercases when matching is case-insensitive.
    fn normalize(&self, address: &str, skip_first: bool) -> (r: String)
        ensures
            r@ == self.spec_normalize(address@, skip_first),
    {
        let n = address.unicode_len();
        let sub: &str = if skip_first && n > 1 {
            address.substring_char(1, n)
        } else {
            address
        };
        if self.case_sensitive {
            String::from_str(sub)
        } else {
            lowercase(sub)
        }
    }

    /// Prefix mode: candidates of one character or fewer never match; the
    /// substring after the first character is normalized and compared by
    /// `starts_with` against each pattern in declaration order.
    fn match_start(&self, address: &str) -> (r: Option<String>)
        requires
            self.spec_start(),
        ensures
            address@.len() <= 1 ==> r is None,
            address@.len() > 1 ==> match r {
                Some(m) => exists|k: int|
                    #[trigger] first_match_at(
                        self.spec_patterns(),
                        self.spec_start(),
                        self.spec_end(),
                        self.spec_checked(address@),
                        k,
                    ) && m@ == self.spec_patterns()[k],
                None => no_match(
                    self.spec_patterns(),
                    self.spec_start(),
                    self.spec_end(),
                    self.spec_checked(address@),
                ),
            },
    {
        let n = address.unicode_len();
        if n <= 1 {
            return None;
        }
        let addr_to_check = self.normalize(address, true);
        let ghost checked = self.spec_checked(address@);
        let mut k: usize = 0;
        while k < self.patterns.len()
            invariant
                addr_to_check@ == checked,
                checked == self.spec_checked(address@),
                self.spec_start(),
                1 < address@.len(),
                self.spec_patterns().len() == self.patterns@.len(),
                k <= self.patterns@.len(),
                forall|j: int|
                    0 <= j < k ==> !starts_with(checked, #[trigger] self.spec_patterns()[j]),
            decreases self.patterns@.len() - k,
        {
            if str_starts_with(addr_to_check.as_str(), self.patterns[k].as_str()) {
                proof {
                    assert(first_match_at(
                        self.spec_patterns(),
                        self.spec_start(),
                        self.spec_end(),
                        checked,
                        k as int,
                    ));
                }
                return Some(self.patterns[k].clone());
            }
            k += 1;
        }
        None
    }

    /// Suffix mode: the whole candidate is normalized and compared by
    /// `ends_with` against each pattern in declaration order.
    fn match_end(&self, address: &str) -> (r: Option<String>)
        requires
            !self.spec_start(),
            self.spec_end(),
        ensures
            match r {
                Some(m) => exists|k: int|
                    #[trigger] first_match_at(
                        self.spec_patterns(),
                        self.spec_start(),
                        self.spec_end(),
                        self.spec_checked(address@),
                        k,
                    ) && m@ == self.spec_patterns()[k],
                None => no_match(
                    self.spec_patterns(),
                    self.spec_start(),
                    self.spec_end(),
                    self.spec_checked(address@),
                ),
            },
    {
        let addr_to_check = self.normalize(address, false);
        let ghost checked = self.spec_normalize(address@, false);
        let mut k: usize = 0;
        while k < self.patterns.len()
            invariant
                addr_to_check@ == checked,
                checked == self.spec_checked(address@),
                !self.spec_start(),
                self.spec_end(),
                self.spec_patterns().len() == self.patterns@.len(),
                k <= self.patterns@.len(),
                forall|j: int|
                    0 <= j < k ==> !ends_with(checked, #[trigger] self.spec_patterns()[j]),
            decreases self.patterns@.len() - k,
        {
            if str_ends_with(addr_to_check.as_str(), self.patterns[k].as_str()) {
                proof {
                    assert(first_match_at(
                        self.spec_patterns(),
                        self.spec_start(),
                        self.spec_end(),
                        checked,
                        k as int,
                    ));
                }
                return Some(self.patterns[k].clone());
            }
            k += 1;
        }
        None
    }

    /// Anywhere mode: the whole candidate is normalized and searched for each
    /// pattern in declaration order.
    fn match_anywhere(&self, address: &str) -> (r: Option<String>)
        requires
            !self.spec_start(),
            !self.spec_end(),
        ensures
            match r {
                Some(m) => exists|k: int|
                    #[trigger] first_match_at(
                        self.spec_patterns(),
                        self.spec_start(),
                        self.spec_end(),
                        self.spec_checked(address@),
                        k,
                    ) && m@ == self.spec_patterns()[k],
                None => no_match(
                    self.spec_patterns(),
                    self.spec_start(),
                    self.spec_end(),
                    self.spec_checked(address@),
                ),
            },
    {
        let addr_to_check = self.normalize(address, false);
        let ghost checked = self.spec_normalize(address@, false);
        let mut k: usize = 0;
        while k < self.patterns.len()
            invariant
                addr_to_check@ == checked,
                checked == self.spec_checked(address@),
                !self.spec_start(),
                !self.spec_end(),
                self.spec_patterns().len() == self.patterns@.len(),
                k <= self.patterns@.len(),
                forall|j: int|
                    0 <= j < k ==> !occurs_in(checked, #[trigger] self.spec_patterns()[j]),
            decreases self.patterns@.len() - k,
        {
            if str_contains_pat(addr_to_check.as_str(), self.patterns[k].as_str()) {
                proof {
                    assert(first_match_at(
                        self.spec_patterns(),
                        self.spec_start(),
                        self.spec_end(),
                        checked,
                        k as int,
                    ));
                }
                return Some(self.patterns[k].clone());
            }
            k += 1;
        }
        None
    }

    /// Checks whether the candidate matches any pattern under the configured
    /// mode; the first pattern in declaration order wins. Absence of a match
    /// is `None`, never an error.
    pub fn is_match(&self, address: &str) -> (r: Option<String>)
        ensures
            self.spec_start() && address@.len() <= 1 ==> r is None,
            !(self.spec_start() && address@.len() <= 1) ==> match r {
                Some(m) => exists|k: int|
                    #[trigger] first_match_at(
                        self.spec_patterns(),
                        self.spec_start(),
                        self.spec_end(),
                        self.spec_checked(address@),
                        k,
                    ) && m@ == self.spec_patterns()[k],
                None => no_match(
                    self.spec_patterns(),
                    self.spec_start(),
                    self.spec_end(),
                    self.spec_checked(address@),
                ),
            },
    {
        if self.start {
            self.match_start(address)
        } else if self.end {
            self.match_end(address)
        } else {
            self.match_anywhere(address)
        }
    }
}

/// Determinism of match selection: for a given candidate there is at most one
/// index that is the first matching pattern.
pub proof fn lemma_first_match_unique(
    pats: Seq<Seq<char>>,
    start: bool,
    end: bool,
    s: Seq<char>,
    k1: int,
    k2: int,
)
    requires
        first_match_at(pats, start, end, s, k1),
        first_match_at(pats, start, end, s, k2),
    ensures
        k1 == k2,
{
    if k1 < k2 {
        assert(!mode_matches(start, end, s, pats[k1]));
    } else if k2 < k1 {
        assert(!mode_matches(start, end, s, pats[k2]));
    }
}

/// First-declared pattern wins: the selected pattern is never declared later
/// than any other matching pattern, regardless of where in the candidate
/// either pattern occurs.
pub proof fn lemma_first_pattern_wins(
    pats: Seq<Seq<char>>,
    start: bool,
    end: bool,
    s: Seq<char>,
    k: int,
    other: int,
)
    requires
        first_match_at(pats, start, end, s, k),
        0 <= other < pats.len(),
        mode_matches(start, end, s, pats[other]),
    ensures
        k <= other,
{
    if other < k {
        assert(!mode_matches(start, end, s, pats[other]));
    }
}

} // verus!
