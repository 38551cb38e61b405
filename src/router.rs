use vstd::prelude::*;
use vstd::string::*;

use crate::keyed::{entry_map, find_key, keys_unique, put_key};
use crate::number::{before_first, find_char, lemma_first_pos_bounds};

verus! {

/// The shape of a route key: an optional `prefix:`, a path, and an optional
/// `:suffix`, each made of word characters and `/`.
pub const ROUTER_KEY_PATTERN: &'static str = "^([\\w/]+:)?[\\w/]+(:[\\w/]+)?$";

/// Whether `text` matches the regular expression `pattern`.
pub uninterp spec fn regex_matches(pattern: Seq<char>, text: Seq<char>) -> bool;

/// Relies on `regex::Regex::new` and `regex::Regex::is_match`: whether `text`
/// matches `pattern`; `None` when the pattern does not compile. The two
/// patterns of this library compile.
#[verifier::external_body]
pub(crate) fn regex_is_match(pattern: &str, text: &str) -> (r: Option<bool>)
    ensures
        r matches Some(b) ==> b == regex_matches(pattern@, text@),
        pattern@ == ROUTER_KEY_PATTERN@ || pattern@ == crate::source::RATE_RESOLVER_PATTERN@ ==> r is Some,
{
    regex::Regex::new(pattern).ok().map(|re| re.is_match(text))
}

#[derive(Debug)]
pub enum RouterError {
    InvalidKey(String),
}

/// Handlers by route.
#[derive(Debug)]
pub struct Router<H> {
    pub routes: Vec<(String, H)>,
}

/// A route found for a request path, with the path's query.
#[derive(Debug)]
pub struct RouterMatch<'a, H> {
    pub params: String,
    pub value: &'a H,
}

/// Position of the last `c` in `s`, or -1 when there is none.
pub open spec fn last_pos(s: Seq<char>, c: char) -> int
    decreases s.len(),
{
    if s.len() == 0 {
        -1
    } else if s.last() == c {
        s.len() - 1
    } else {
        last_pos(s.drop_last(), c)
    }
}

/// What follows the last `c` in `s` (all of `s` when there is none).
pub open spec fn after_last(s: Seq<char>, c: char) -> Seq<char> {
    s.subrange(last_pos(s, c) + 1, s.len() as int)
}

proof fn lemma_last_pos(s: Seq<char>, c: char, i: int)
    requires
        -1 <= i < s.len(),
        forall|j: int| i < j < s.len() ==> s[j] != c,
        i == -1 || s[i] == c,
    ensures
        last_pos(s, c) == i,
    decreases s.len(),
{
    if s.len() > 0 && s.last() != c {
        lemma_last_pos(s.drop_last(), c, i);
    }
}

fn find_last(s: &str, c: char) -> (r: Option<usize>)
    ensures
        r matches Some(i) ==> i as int == last_pos(s@, c) && i < s@.len(),
        r is None ==> last_pos(s@, c) == -1,
{
    let n = s.unicode_len();
    let mut i: usize = n;
    while i > 0
        invariant
            n == s@.len(),
            i <= n,
            forall|j: int| i <= j < n ==> s@[j] != c,
        decreases i,
    {
        if s.get_char(i - 1) == c {
            proof {
                lemma_last_pos(s@, c, i - 1);
            }
            return Some(i - 1);
        }
        i = i - 1;
    }
    proof {
        lemma_last_pos(s@, c, -1);
    }
    None
}

impl<H> Router<H> {
    pub open spec fn wf(&self) -> bool {
        keys_unique(self.routes@)
    }

    pub open spec fn view(&self) -> Map<Seq<char>, H> {
        entry_map(self.routes@)
    }

    pub fn new() -> (r: Router<H>)
        ensures
            r.wf(),
            r@ == Map::<Seq<char>, H>::empty(),
    {
        let r = Router { routes: Vec::new() };
        assert(r@ =~= Map::<Seq<char>, H>::empty());
        r
    }

    /// Adds the handler `value` under the route that `key` names: the part
    /// before its first `:`. A key of any other shape is refused.
    pub fn insert(&mut self, key: &str, value: H) -> (r: Result<(), RouterError>)
        requires
            old(self).wf(),
        ensures
            final(self).wf(),
            r is Ok <==> regex_matches(ROUTER_KEY_PATTERN@, key@),
            r is Ok ==> final(self)@ == old(self)@.insert(before_first(key@, ':'), value),
            r matches Err(RouterError::InvalidKey(k)) ==> k@ == key@ && final(self)@ == old(self)@,
    {
        match regex_is_match(ROUTER_KEY_PATTERN, key) {
            Some(true) => {},
            _ => {
                return Err(RouterError::InvalidKey(String::from_str(key)));
            },
        }
        let colon = find_char(key, ':');
        proof {
            lemma_first_pos_bounds(key@, ':');
        }
        let route = String::from_str(key.substring_char(0, colon));
        put_key(&mut self.routes, route, value);
        Ok(())
    }

    /// The handler of a request path `key`: the route is the part before its
    /// first `?`, the query the part after its last `?` (all of `key` when it
    /// has none).
    pub fn at(&self, key: &str) -> (r: Option<RouterMatch<'_, H>>)
        requires
            self.wf(),
        ensures
            r is Some <==> self@.contains_key(before_first(key@, '?')),
            r matches Some(m) ==> *m.value == self@[before_first(key@, '?')] && m.params@ == after_last(
                key@,
                '?',
            ),
    {
        let n = key.unicode_len();
        let q = find_char(key, '?');
        proof {
            lemma_first_pos_bounds(key@, '?');
        }
        let route = String::from_str(key.substring_char(0, q));
        let params = match find_last(key, '?') {
            Some(i) => String::from_str(key.substring_char(i + 1, n)),
            None => String::from_str(key.substring_char(0, n)),
        };
        assert(params@ == after_last(key@, '?'));
        match find_key(&self.routes, &route) {
            Some(i) => Some(RouterMatch { params, value: &self.routes[i].1 }),
            None => None,
        }
    }
}

} // verus!
