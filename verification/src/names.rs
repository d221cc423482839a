//! Name filters for Tiled objects, layers and tiles: names are compared
//! case-insensitively, with leading and trailing whitespace ignored.
use vstd::prelude::*;

verus! {

/// A character with the Unicode `White_Space` property.
pub open spec fn is_white_space(c: char) -> bool {
    let u = c as u32;
    (0x09 <= u <= 0x0d) || u == 0x20 || u == 0x85 || u == 0xa0 || u == 0x1680
        || (0x2000 <= u <= 0x200a) || u == 0x2028 || u == 0x2029 || u == 0x202f
        || u == 0x205f || u == 0x3000
}

/// The sequence without its leading and trailing white space: the part
/// from `start` to `end` where no character before `start` or from `end` on
/// is kept unless it is not white space.
pub open spec fn is_trim_of(s: Seq<char>, r: Seq<char>) -> bool {
    exists|start: int, end: int| {
        &&& 0 <= start <= end <= s.len()
        &&& r == s.subrange(start, end)
        &&& forall|k: int| 0 <= k < start ==> is_white_space(#[trigger] s[k])
        &&& forall|k: int| end <= k < s.len() ==> is_white_space(#[trigger] s[k])
        &&& (start < end ==> !is_white_space(s[start]) && !is_white_space(s[end - 1]))
    }
}

/// What `str::to_lowercase` returns for a string with these characters
/// (full Unicode lowercase mapping).
pub uninterp spec fn lowercase_of(s: Seq<char>) -> Seq<char>;

/// `str::to_lowercase`: the Unicode lowercase of the string. Its contract
/// only names the result; the mapping itself is not stated.
#[verifier::external_body]
fn to_lowercase(s: &str) -> (r: String)
    ensures
        r@ == lowercase_of(s@),
{
    s.to_lowercase()
}

fn is_white_space_char(c: char) -> (r: bool)
    ensures
        r == is_white_space(c),
{
    let u = c as u32;
    (0x09 <= u && u <= 0x0d) || u == 0x20 || u == 0x85 || u == 0xa0 || u == 0x1680
        || (0x2000 <= u && u <= 0x200a) || u == 0x2028 || u == 0x2029 || u == 0x202f
        || u == 0x205f || u == 0x3000
}

/// The string without leading and trailing white space, as `str::trim`.
pub fn trim(s: &str) -> (r: &str)
    ensures
        is_trim_of(s@, r@),
{
    let n = s.unicode_len();
    let mut start: usize = 0;
    while start < n && is_white_space_char(s.get_char(start))
        invariant
            n == s@.len(),
            start <= n,
            forall|k: int| 0 <= k < start ==> is_white_space(#[trigger] s@[k]),
        decreases n - start,
    {
        start = start + 1;
    }
    let mut end: usize = n;
    while end > start && is_white_space_char(s.get_char(end - 1))
        invariant
            n == s@.len(),
            start <= end <= n,
            forall|k: int| 0 <= k < start ==> is_white_space(#[trigger] s@[k]),
            forall|k: int| end <= k < n ==> is_white_space(#[trigger] s@[k]),
            start < n ==> !is_white_space(s@[start as int]),
        decreases end - start,
    {
        end = end - 1;
    }
    let r = s.substring_char(start, end);
    assert(is_trim_of(s@, r@)) by {
        assert(start < end ==> !is_white_space(s@[start as int]));
    }
    r
}

/// There is one trimmed form.
pub proof fn lemma_trim_unique(s: Seq<char>, a: Seq<char>, b: Seq<char>)
    requires
        is_trim_of(s, a),
        is_trim_of(s, b),
    ensures
        a == b,
{
    let (s1, e1) = choose|start: int, end: int| {
        &&& 0 <= start <= end <= s.len()
        &&& a == s.subrange(start, end)
        &&& forall|k: int| 0 <= k < start ==> is_white_space(#[trigger] s[k])
        &&& forall|k: int| end <= k < s.len() ==> is_white_space(#[trigger] s[k])
        &&& (start < end ==> !is_white_space(s[start]) && !is_white_space(s[end - 1]))
    };
    let (s2, e2) = choose|start: int, end: int| {
        &&& 0 <= start <= end <= s.len()
        &&& b == s.subrange(start, end)
        &&& forall|k: int| 0 <= k < start ==> is_white_space(#[trigger] s[k])
        &&& forall|k: int| end <= k < s.len() ==> is_white_space(#[trigger] s[k])
        &&& (start < end ==> !is_white_space(s[start]) && !is_white_space(s[end - 1]))
    };
    if s1 < e1 && s2 < e2 {
        if s1 < s2 {
            assert(is_white_space(s[s1]));
        }
        if s2 < s1 {
            assert(is_white_space(s[s2]));
        }
        if e1 < e2 {
            assert(is_white_space(s[e2 - 1]));
        }
        if e2 < e1 {
            assert(is_white_space(s[e1 - 1]));
        }
        assert(s1 == s2 && e1 == e2);
    } else if s1 < e1 {
        if s1 < s2 {
            assert(is_white_space(s[s1]));
        } else {
            assert(is_white_space(s[s1]));
        }
    } else if s2 < e2 {
        if s2 < s1 {
            assert(is_white_space(s[s2]));
        } else {
            assert(is_white_space(s[s2]));
        }
    } else {
        assert(a =~= b);
    }
}

/// The sequence without leading and trailing white space.
pub open spec fn trimmed(s: Seq<char>) -> Seq<char> {
    choose|t: Seq<char>| is_trim_of(s, t)
}

/// The form in which names are compared: trimmed, then lowercased.
pub open spec fn normalized(s: Seq<char>) -> Seq<char> {
    lowercase_of(trimmed(s))
}

/// The comparison form of a name: trimmed, then lowercased.
pub fn normalize(s: &str) -> (r: String)
    ensures
        r@ == normalized(s@),
{
    let t = trim(s);
    proof {
        lemma_trim_unique(s@, t@, trimmed(s@));
    }
    to_lowercase(t)
}

} // verus!

verus! {

/// A set of allowed names for Tiled objects, layers or tiles.
#[derive(Clone, Debug, PartialEq, Eq)]
pub enum TiledName {
    /// Matches all names.
    All,
    /// Matches only these names, compared case-insensitively and with
    /// leading and trailing white space trimmed.
    Names(Vec<String>),
    /// Matches no name.
    Nothing,
}

/// A [`TiledName`] prepared for lookups: the allowed names in comparison
/// form, each once, empty ones dropped.
#[derive(Clone, Debug)]
pub enum TiledNameFilter {
    /// Matches all names.
    All,
    /// Matches only these (normalized) names.
    Names(Vec<String>),
    /// Matches no name.
    Nothing,
}

/// Views of strings.
pub open spec fn names_view(v: Seq<String>) -> Seq<Seq<char>> {
    v.map_values(|s: String| s@)
}

/// The normalized, non-empty forms of the given names.
pub open spec fn allowed_set(names: Seq<String>) -> Set<Seq<char>> {
    Set::new(|x: Seq<char>| x.len() > 0 && exists|i: int| 0 <= i < names.len() && x == normalized(#[trigger] names[i]@))
}

impl Default for TiledName {
    fn default() -> (r: Self)
        ensures
            r == TiledName::All,
    {
        TiledName::All
    }
}

impl TiledNameFilter {
    /// Well-formed: the names are distinct.
    pub open spec fn wf(&self) -> bool {
        match self {
            TiledNameFilter::Names(v) => names_view(v@).no_duplicates(),
            _ => true,
        }
    }

    /// The names this filter accepts, in comparison form.
    pub open spec fn accepted(&self) -> Set<Seq<char>> {
        match self {
            TiledNameFilter::All => Set::full(),
            TiledNameFilter::Names(v) => names_view(v@).to_set(),
            TiledNameFilter::Nothing => Set::empty(),
        }
    }

    /// Prepares a name specification for lookups.
    pub fn from(value: &TiledName) -> (r: Self)
        ensures
            r.wf(),
            made_from(r, *value),
    {
        match value {
            TiledName::All => TiledNameFilter::All,
            TiledName::Nothing => TiledNameFilter::Nothing,
            TiledName::Names(names) => {
                let mut out: Vec<String> = Vec::new();
                let mut i: usize = 0;
                while i < names.len()
                    invariant
                        i <= names@.len(),
                        names_view(out@).no_duplicates(),
                        names_view(out@).to_set() == allowed_set(names@.subrange(0, i as int)),
                    decreases names@.len() - i,
                {
                    let n = normalize(names[i].as_str());
                    let ghost before = out@;
                    if n.unicode_len() > 0 && !contains_string(&out, &n) {
                        out.push(n);
                        assert(names_view(out@) =~= names_view(before).push(n@));
                        proof {
                            broadcast use vstd::seq_lib::group_seq_properties;
                            assert(names_view(out@).no_duplicates());
                        }
                    }
                    proof {
                        broadcast use vstd::seq_lib::group_seq_properties;
                        assert forall|x: Seq<char>| names_view(out@).contains(x) == (names_view(before).contains(x) || (x.len() > 0 && x == n@)) by {
                            if names_view(out@) != names_view(before) {
                                assert(names_view(out@) == names_view(before).push(n@));
                            }
                        }
                        let pre = names@.subrange(0, i as int);
                        let nxt = names@.subrange(0, i + 1);
                        assert forall|x: Seq<char>| allowed_set(nxt).contains(x) == (allowed_set(pre).contains(x) || (x.len() > 0 && x == n@)) by {
                            if allowed_set(nxt).contains(x) {
                                let k = choose|k: int| 0 <= k < nxt.len() && x == normalized(#[trigger] nxt[k]@);
                                if k < i {
                                    assert(pre[k] == nxt[k]);
                                }
                            }
                            if allowed_set(pre).contains(x) {
                                let k = choose|k: int| 0 <= k < pre.len() && x == normalized(#[trigger] pre[k]@);
                                assert(nxt[k] == pre[k]);
                            }
                            if x.len() > 0 && x == n@ {
                                assert(nxt[i as int] == names@[i as int]);
                            }
                        }
                        assert(names_view(out@).to_set() =~= allowed_set(nxt));
                    }
                    i = i + 1;
                }
                assert(names@.subrange(0, names@.len() as int) =~= names@);
                TiledNameFilter::Names(out)
            },
        }
    }

    /// The name matches the filter (case-insensitively, ignoring leading and
    /// trailing white space).
    pub fn contains(&self, name: &str) -> (r: bool)
        ensures
            r == self.accepted().contains(normalized(name@)),
    {
        match self {
            TiledNameFilter::All => true,
            TiledNameFilter::Names(names) => {
                let n = normalize(name);
                contains_string(names, &n)
            },
            TiledNameFilter::Nothing => false,
        }
    }
}

fn contains_string(v: &Vec<String>, s: &String) -> (r: bool)
    ensures
        r == names_view(v@).contains(s@),
{
    let mut i: usize = 0;
    while i < v.len()
        invariant
            i <= v@.len(),
            forall|k: int| 0 <= k < i ==> v@[k]@ != s@,
        decreases v@.len() - i,
    {
        if v[i].eq(s) {
            assert(names_view(v@)[i as int] == s@);
            return true;
        }
        i = i + 1;
    }
    assert(!names_view(v@).contains(s@)) by {
        if names_view(v@).contains(s@) {
            let k = choose|k: int| 0 <= k < names_view(v@).len() && names_view(v@)[k] == s@;
            assert(v@[k]@ == s@);
        }
    }
    false
}


/// How a name specification matches a name: `All` every name, `Nothing`
/// none, a list every name whose trimmed lowercase form is not empty and is
/// that of a listed name.
pub open spec fn name_matches(value: TiledName, name: Seq<char>) -> bool {
    match value {
        TiledName::All => true,
        TiledName::Nothing => false,
        TiledName::Names(ns) => normalized(name).len() > 0
            && exists|i: int| 0 <= i < ns@.len() && normalized(#[trigger] ns@[i]@) == normalized(name),
    }
}

/// `f` is what [`TiledNameFilter::from`] makes of `value`.
pub open spec fn made_from(f: TiledNameFilter, value: TiledName) -> bool {
    match value {
        TiledName::All => f is All,
        TiledName::Nothing => f is Nothing,
        TiledName::Names(ns) => f is Names && f.accepted() == allowed_set(ns@),
    }
}

/// A filter made from a name specification matches exactly the names the
/// specification allows, and names that differ only in case or in leading
/// and trailing white space match alike.
pub proof fn lemma_filter_matches(value: TiledName, f: TiledNameFilter, a: Seq<char>, b: Seq<char>)
    requires
        made_from(f, value),
        normalized(a) == normalized(b),
    ensures
        f.accepted().contains(normalized(a)) == name_matches(value, a),
        name_matches(value, a) == name_matches(value, b),
{
    match value {
        TiledName::Names(ns) => {
            if allowed_set(ns@).contains(normalized(a)) {
                let i = choose|i: int| 0 <= i < ns@.len() && normalized(a) == normalized(#[trigger] ns@[i]@);
                assert(normalized(ns@[i]@) == normalized(a));
            }
            if name_matches(value, a) {
                let i = choose|i: int| 0 <= i < ns@.len() && normalized(#[trigger] ns@[i]@) == normalized(a);
                assert(normalized(a) == normalized(ns@[i]@));
            }
        },
        _ => {},
    }
}

} // verus!
