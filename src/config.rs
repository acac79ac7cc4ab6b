//! The routing table: an ordered list of path-prefix rules, each naming a
//! backend address. The first rule whose prefix starts the path wins.

use vstd::prelude::*;
use vstd::utf8::encode_utf8;

verus! {

/// Receive-buffer size used when the configuration does not give one.
pub const DEFAULT_BUFFER_SIZE: usize = 8192;

/// Largest number of header lines a frame may carry.
pub const MAX_NUMBERS_OF_HEADERS: usize = 100;

/// The UTF-8 bytes of a string, as it goes on the wire.
pub open spec fn utf8_bytes(s: Seq<char>) -> Seq<u8> {
    encode_utf8(s)
}

/// `p` is a literal, byte-wise prefix of `s`.
pub open spec fn is_byte_prefix(p: Seq<u8>, s: Seq<u8>) -> bool {
    p.len() <= s.len() && s.subrange(0, p.len() as int) == p
}

/// One routing rule: requests whose path starts with `starts_with` go to
/// `server_addr`.
#[derive(Debug, Clone, PartialEq, Eq, Hash)]
pub struct Matcher {
    is_prefix: bool,
    starts_with: String,
    server_addr: String,
}

impl Matcher {
    /// The prefix this rule matches, as bytes.
    pub closed spec fn prefix_bytes(&self) -> Seq<u8> {
        utf8_bytes(self.starts_with@)
    }

    /// The backend address of this rule.
    pub closed spec fn addr_view(&self) -> Seq<char> {
        self.server_addr@
    }

    /// Whether the rule is flagged as a prefix rule.
    pub closed spec fn prefix_flag(&self) -> bool {
        self.is_prefix
    }

    /// The rule matches a path given as bytes.
    pub open spec fn matches(&self, path: Seq<u8>) -> bool {
        is_byte_prefix(self.prefix_bytes(), path)
    }

    pub fn new(is_prefix: bool, starts_with: String, server_addr: String) -> (r: Matcher)
        ensures
            r.prefix_bytes() == utf8_bytes(starts_with@),
            r.addr_view() == server_addr@,
            r.prefix_flag() == is_prefix,
    {
        Matcher { is_prefix, starts_with, server_addr }
    }

    /// The prefix this rule matches.
    pub fn starts_with(&self) -> (r: &str)
        ensures
            utf8_bytes(r@) == self.prefix_bytes(),
    {
        self.starts_with.as_str()
    }

    /// Whether the rule is flagged as a prefix rule.
    pub fn is_prefix(&self) -> (r: bool)
        ensures
            r == self.prefix_flag(),
    {
        self.is_prefix
    }

    /// Byte-wise, case-sensitive test that the rule's prefix starts `path`.
    pub fn is_match(&self, path: &str) -> (r: bool)
        ensures
            r == self.matches(utf8_bytes(path@)),
    {
        let p = self.starts_with.as_str().as_bytes();
        let s = path.as_bytes();
        if p.len() > s.len() {
            return false;
        }
        let mut i: usize = 0;
        while i < p.len()
            invariant
                p@ == self.prefix_bytes(),
                s@ == utf8_bytes(path@),
                p@.len() <= s@.len(),
                i <= p@.len(),
                forall|j: int| 0 <= j < i ==> p@[j] == s@[j],
            decreases p@.len() - i,
        {
            if p[i] != s[i] {
                assert(s@.subrange(0, p@.len() as int)[i as int] != p@[i as int]);
                return false;
            }
            i = i + 1;
        }
        assert(s@.subrange(0, p@.len() as int) =~= p@);
        true
    }

    /// The backend address of this rule.
    pub fn server_addr(&self) -> (r: &str)
        ensures
            r@ == self.addr_view(),
    {
        self.server_addr.as_str()
    }
}

/// Index of the first rule at or after `k` that matches `path`.
pub open spec fn first_route_from(rules: Seq<Matcher>, path: Seq<u8>, k: int) -> Option<int>
    decreases rules.len() - k,
{
    if k < 0 || k >= rules.len() {
        None
    } else if rules[k].matches(path) {
        Some(k)
    } else {
        first_route_from(rules, path, k + 1)
    }
}

/// A rule found from `k` on lies at or after `k`, matches, and is preceded
/// from `k` on only by rules that do not match.
pub proof fn lemma_first_route_from(rules: Seq<Matcher>, path: Seq<u8>, k: int)
    requires
        0 <= k,
    ensures
        first_route_from(rules, path, k) matches Some(i) ==> {
            &&& k <= i < rules.len()
            &&& rules[i].matches(path)
            &&& forall|j: int| k <= j < i ==> !rules[j].matches(path)
        },
        first_route_from(rules, path, k) is None ==> forall|j: int|
            k <= j < rules.len() ==> !rules[j].matches(path),
    decreases rules.len() - k,
{
    if k < rules.len() && !rules[k].matches(path) {
        lemma_first_route_from(rules, path, k + 1);
    }
}

/// Index of the first rule, in declaration order, that matches `path`.
pub open spec fn first_route(rules: Seq<Matcher>, path: Seq<u8>) -> Option<int> {
    first_route_from(rules, path, 0)
}

/// The proxy's configuration: where it listens, its routing rules, and the
/// size of each connection's receive buffers.
#[derive(Debug, Clone)]
pub struct HpsConfig {
    pub server_addr: String,
    pub server_port: u16,
    pub paths: Vec<Matcher>,
    pub verbose: bool,
    pub buffer_size: usize,
}

impl HpsConfig {
    /// Index of the rule that routes `path`: the first one whose prefix
    /// starts it.
    pub fn match_route(&self, path: &str) -> (r: Option<usize>)
        ensures
            r matches Some(i) ==> i < self.paths@.len() && first_route(
                self.paths@,
                utf8_bytes(path@),
            ) == Some(i as int),
            r is None <==> first_route(self.paths@, utf8_bytes(path@)) is None,
    {
        let mut i: usize = 0;
        while i < self.paths.len()
            invariant
                i <= self.paths@.len(),
                first_route(self.paths@, utf8_bytes(path@)) == first_route_from(
                    self.paths@,
                    utf8_bytes(path@),
                    i as int,
                ),
            decreases self.paths@.len() - i,
        {
            if self.paths[i].is_match(path) {
                return Some(i);
            }
            i = i + 1;
        }
        None
    }

    /// The rule that routes `path`: the first one whose prefix starts it.
    pub fn match_path<'a>(&'a self, path: &str) -> (r: Option<&'a Matcher>)
        ensures
            r == (match first_route(self.paths@, utf8_bytes(path@)) {
                Some(i) => Some(&self.paths@[i]),
                None => None,
            }),
    {
        proof {
            lemma_first_route_from(self.paths@, utf8_bytes(path@), 0);
        }
        match self.match_route(path) {
            Some(i) => Some(&self.paths[i]),
            None => None,
        }
    }

    pub fn get_default_bridge_buffer_size() -> (r: usize)
        ensures
            r == 8192,
    {
        DEFAULT_BUFFER_SIZE
    }
}

/// Routing is a function of the rules and the path alone, so matching the
/// same path against the same table always gives the same rule: the first
/// one, in declaration order, whose prefix starts the path, or none when no
/// prefix does.
pub proof fn lemma_route_is_first_match(rules: Seq<Matcher>, path: Seq<u8>)
    ensures
        forall|rules2: Seq<Matcher>, path2: Seq<u8>|
            rules2 == rules && path2 == path ==> #[trigger] first_route(rules2, path2) == first_route(
                rules,
                path,
            ),
        first_route(rules, path) matches Some(i) ==> {
            &&& 0 <= i < rules.len()
            &&& rules[i].matches(path)
            &&& forall|j: int| 0 <= j < i ==> !rules[j].matches(path)
        },
        first_route(rules, path) is None ==> forall|j: int| 0 <= j < rules.len() ==> !rules[j].matches(path),
{
    lemma_first_route_from(rules, path, 0);
}

} // verus!
