//! Validated device identifiers and their canonical slug encoding.
//!
//! A slug has the form `port@node.driver`, where each part is drawn from the
//! word alphabet (ASCII alphanumerics, `_` and `-`, possibly empty).  The
//! validating grammar is deliberately permissive about the middle separator:
//! any single character is accepted between node and driver, not only a
//! literal dot.  Parsing is greedy, so on an all-word tail the separator
//! consumes the last character and the driver comes out empty.

use vstd::prelude::*;

use crate::scan::lemma_scan_while;
use crate::scan::lemma_scan_while_is;
use crate::scan::scan_while;

verus! {

/// The slug alphabet: ASCII alphanumerics, underscore and hyphen.
pub open spec fn is_word_char(c: char) -> bool {
    ('a' as u32 <= c as u32 && c as u32 <= 'z' as u32) || ('A' as u32 <= c as u32 && c as u32
        <= 'Z' as u32) || ('0' as u32 <= c as u32 && c as u32 <= '9' as u32) || c == '_' || c == '-'
}

pub open spec fn all_word(s: Seq<char>) -> bool {
    forall|i: int| 0 <= i < s.len() ==> is_word_char(s[i])
}

pub open spec fn word_pred() -> spec_fn(char) -> bool {
    |c: char| is_word_char(c)
}

/// End of the maximal word-character run starting at `i`.
pub open spec fn word_end(s: Seq<char>, i: int) -> int {
    scan_while(s, i, word_pred())
}

/// The canonical slug built from three parts.
pub open spec fn slug_of(p: Seq<char>, n: Seq<char>, d: Seq<char>) -> Seq<char> {
    p + seq!['@'] + n + seq!['.'] + d
}

/// Greedy decomposition of a slug into port, node and driver.
///
/// The port is the maximal word prefix, which must be followed by `@`.  On
/// the remainder, the node is the maximal word run; one arbitrary character
/// serves as the separator, and the rest must be all word characters.  When
/// the whole remainder is word characters, greediness gives the separator
/// the last of them and the driver is empty.
pub open spec fn slug_parse(s: Seq<char>) -> Option<(Seq<char>, Seq<char>, Seq<char>)> {
    let i = word_end(s, 0);
    if i == s.len() || s[i] != '@' {
        None
    } else {
        let p = s.subrange(0, i);
        let r = s.subrange(i + 1, s.len() as int);
        let m = word_end(r, 0);
        if m == r.len() {
            if r.len() == 0 {
                None
            } else {
                Some((p, r.subrange(0, r.len() - 1), Seq::<char>::empty()))
            }
        } else {
            if all_word(r.subrange(m + 1, r.len() as int)) {
                Some((p, r.subrange(0, m), r.subrange(m + 1, r.len() as int)))
            } else {
                None
            }
        }
    }
}

fn word_char(c: char) -> (r: bool)
    ensures
        r == is_word_char(c),
{
    ('a' as u32 <= c as u32 && c as u32 <= 'z' as u32) || ('A' as u32 <= c as u32 && c as u32
        <= 'Z' as u32) || ('0' as u32 <= c as u32 && c as u32 <= '9' as u32) || c == '_' || c == '-'
}

/// Joining word parts with the canonical separators parses back to exactly
/// those parts.
pub proof fn lemma_slug_round_trip(p: Seq<char>, n: Seq<char>, d: Seq<char>)
    requires
        all_word(p),
        all_word(n),
        all_word(d),
    ensures
        slug_parse(slug_of(p, n, d)) == Some((p, n, d)),
{
    let s = slug_of(p, n, d);
    let pl = p.len() as int;
    let nl = n.len() as int;
    let dl = d.len() as int;
    assert(s.len() == pl + nl + dl + 2);
    assert(s[pl] == '@');
    assert(s[pl + 1 + nl] == '.');
    assert forall|k: int| 0 <= k < pl implies is_word_char(s[k]) by {
        assert(s[k] == p[k]);
    }
    lemma_scan_while_is(s, 0, pl, word_pred());
    assert(word_end(s, 0) == pl);
    let r = s.subrange(pl + 1, s.len() as int);
    assert(r =~= n + seq!['.'] + d);
    assert(r[nl] == '.');
    assert forall|k: int| 0 <= k < nl implies is_word_char(r[k]) by {
        assert(r[k] == n[k]);
    }
    lemma_scan_while_is(r, 0, nl, word_pred());
    assert(word_end(r, 0) == nl);
    assert(nl < r.len());
    let tail = r.subrange(nl + 1, r.len() as int);
    assert forall|k: int| 0 <= k < tail.len() implies is_word_char(#[trigger] tail[k]) by {
        assert(tail[k] == d[k]);
    }
    assert(s.subrange(0, pl) =~= p);
    assert(r.subrange(0, nl) =~= n);
    assert(r.subrange(nl + 1, r.len() as int) =~= d);
}

/// Conversely, if the canonical concatenation of three parts parses at all,
/// every part was made of word characters: the grammar admits at most two
/// non-word characters, and the two separators already use them up.
pub proof fn lemma_slug_concat_word(p: Seq<char>, n: Seq<char>, d: Seq<char>)
    requires
        slug_parse(slug_of(p, n, d)) is Some,
    ensures
        all_word(p),
        all_word(n),
        all_word(d),
{
    let s = slug_of(p, n, d);
    let pl = p.len() as int;
    let nl = n.len() as int;
    let dl = d.len() as int;
    assert(s.len() == pl + nl + dl + 2);
    assert(s[pl] == '@');
    assert(s[pl + 1 + nl] == '.');
    let i = word_end(s, 0);
    lemma_scan_while(s, 0, word_pred());
    assert(i < s.len() && s[i] == '@');
    // The maximal word prefix cannot run past the '@' separator.
    assert(i <= pl) by {
        if i > pl {
            assert(is_word_char(s[pl]));
        }
    }
    let r = s.subrange(i + 1, s.len() as int);
    let m = word_end(r, 0);
    lemma_scan_while(r, 0, word_pred());
    // The '.' separator lies in the remainder, so the all-word case is out.
    let q = pl + 1 + nl;
    assert(r[q - i - 1] == s[q]);
    assert(m < r.len()) by {
        if m == r.len() {
            assert(is_word_char(r[q - i - 1]));
        }
    }
    assert(all_word(r.subrange(m + 1, r.len() as int)));
    // Only index m of the remainder may hold a non-word character.
    assert forall|k: int| 0 <= k < r.len() && k != m implies is_word_char(r[k]) by {
        if k > m {
            assert(r.subrange(m + 1, r.len() as int)[k - m - 1] == r[k]);
        }
    }
    // If the port prefix stopped early, both separators would need index m.
    assert(i == pl) by {
        if i < pl {
            assert(r[pl - i - 1] == s[pl]);
            assert(pl - i - 1 == m);
            assert(q - i - 1 == m);
        }
    }
    assert forall|k: int| 0 <= k < pl implies is_word_char(p[k]) by {
        assert(s[k] == p[k]);
    }
    // The node run stops exactly at the '.' separator.
    assert(nl == m) by {
        if nl != m {
            assert(is_word_char(r[nl]));
            assert(r[nl] == s[q]);
        }
    }
    assert forall|k: int| 0 <= k < nl implies is_word_char(n[k]) by {
        assert(r[k] == s[i + 1 + k]);
        assert(s[pl + 1 + k] == n[k]);
    }
    assert forall|k: int| 0 <= k < dl implies is_word_char(d[k]) by {
        assert(r[m + 1 + k] == s[pl + 2 + nl + k]);
        assert(s[pl + 2 + nl + k] == d[k]);
    }
}

/// A device identifier with three named parts and its canonical slug.
#[derive(Debug)]
pub struct Device {
    slug: String,
    port: String,
    node: String,
    driver: String,
}

impl Device {
    pub closed spec fn spec_slug(self) -> Seq<char> {
        self.slug@
    }

    pub closed spec fn spec_port(self) -> Seq<char> {
        self.port@
    }

    pub closed spec fn spec_node(self) -> Seq<char> {
        self.node@
    }

    pub closed spec fn spec_driver(self) -> Seq<char> {
        self.driver@
    }

    /// The stored parts are exactly what parsing the stored slug yields.
    pub open spec fn wf(self) -> bool {
        slug_parse(self.spec_slug()) == Some(
            (self.spec_port(), self.spec_node(), self.spec_driver()),
        )
    }

    /// Builds the slug from the given parts and validates it; the result is
    /// some device exactly when every part is made of word characters.
    pub fn new(port: &str, node: &str, driver: &str) -> (r: Option<Device>)
        ensures
            r is Some <==> all_word(port@) && all_word(node@) && all_word(driver@),
            r is Some <==> slug_parse(slug_of(port@, node@, driver@)) is Some,
            r is Some ==> {
                &&& r->0.spec_slug() == slug_of(port@, node@, driver@)
                &&& r->0.spec_port() == port@
                &&& r->0.spec_node() == node@
                &&& r->0.spec_driver() == driver@
                &&& r->0.wf()
            },
    {
        let mut slug = String::from_str(port);
        slug.append("@");
        slug.append(node);
        slug.append(".");
        slug.append(driver);
        proof {
            reveal_strlit("@");
            reveal_strlit(".");
            assert(slug@ =~= slug_of(port@, node@, driver@));
        }
        let device = Device {
            slug,
            port: String::from_str(port),
            node: String::from_str(node),
            driver: String::from_str(driver),
        };
        if device.is_valid() {
            proof {
                lemma_slug_concat_word(port@, node@, driver@);
                lemma_slug_round_trip(port@, node@, driver@);
            }
            Some(device)
        } else {
            proof {
                if all_word(port@) && all_word(node@) && all_word(driver@) {
                    lemma_slug_round_trip(port@, node@, driver@);
                }
            }
            None
        }
    }

    /// Parses a slug; the result is some device exactly when the slug
    /// matches the (permissive) grammar, and the parts are its greedy
    /// decomposition.
    pub fn with_slug(slug: &str) -> (r: Option<Device>)
        ensures
            r is Some <==> slug_parse(slug@) is Some,
            r is Some ==> {
                &&& r->0.spec_slug() == slug@
                &&& slug_parse(slug@) == Some(
                    (r->0.spec_port(), r->0.spec_node(), r->0.spec_driver()),
                )
                &&& r->0.wf()
            },
    {
        match parse_slug_str(slug) {
            Some((port, node, driver)) => Some(
                Device { slug: String::from_str(slug), port, node, driver },
            ),
            None => None,
        }
    }

    /// Whether the stored slug matches the validating grammar.
    pub fn is_valid(&self) -> (r: bool)
        ensures
            r == (slug_parse(self.spec_slug()) is Some),
    {
        parse_slug_str(self.slug.as_str()).is_some()
    }

    pub fn get_slug(&self) -> (r: &str)
        ensures
            r@ == self.spec_slug(),
    {
        self.slug.as_str()
    }

    pub fn get_port(&self) -> (r: &str)
        ensures
            r@ == self.spec_port(),
    {
        self.port.as_str()
    }

    pub fn get_node(&self) -> (r: &str)
        ensures
            r@ == self.spec_node(),
    {
        self.node.as_str()
    }

    pub fn get_driver(&self) -> (r: &str)
        ensures
            r@ == self.spec_driver(),
    {
        self.driver.as_str()
    }
}

/// Runs the greedy slug scanner on a string slice.
fn parse_slug_str(s: &str) -> (r: Option<(String, String, String)>)
    ensures
        r is Some <==> slug_parse(s@) is Some,
        r matches Some(t) ==> slug_parse(s@) == Some((t.0@, t.1@, t.2@)),
{
    let n = s.unicode_len();
    let mut i: usize = 0;
    while i < n && word_char(s.get_char(i))
        invariant
            n == s@.len(),
            0 <= i <= n,
            forall|k: int| 0 <= k < i ==> is_word_char(s@[k]),
        decreases n - i,
    {
        i = i + 1;
    }
    proof {
        lemma_scan_while_is(s@, 0, i as int, word_pred());
    }
    if i == n {
        return None;
    }
    if s.get_char(i) != '@' {
        return None;
    }
    let port = s.substring_char(0, i);
    let rest = s.substring_char(i + 1, n);
    let rn = rest.unicode_len();
    let mut m: usize = 0;
    while m < rn && word_char(rest.get_char(m))
        invariant
            rn == rest@.len(),
            0 <= m <= rn,
            forall|k: int| 0 <= k < m ==> is_word_char(rest@[k]),
        decreases rn - m,
    {
        m = m + 1;
    }
    proof {
        lemma_scan_while_is(rest@, 0, m as int, word_pred());
    }
    if m == rn {
        if rn == 0 {
            return None;
        }
        let node = rest.substring_char(0, rn - 1);
        proof {
            assert(rest@.subrange(0, rn - 1) == node@);
        }
        Some((String::from_str(port), String::from_str(node), String::new()))
    } else {
        let mut j: usize = m + 1;
        while j < rn && word_char(rest.get_char(j))
            invariant
                rn == rest@.len(),
                m + 1 <= j <= rn,
                forall|k: int| m + 1 <= k < j ==> is_word_char(rest@[k]),
            decreases rn - j,
        {
            j = j + 1;
        }
        if j < rn {
            proof {
                let tail = rest@.subrange(m + 1, rn as int);
                assert(tail[j - m - 1] == rest@[j as int]);
                assert(!all_word(tail));
            }
            return None;
        }
        let node = rest.substring_char(0, m);
        let driver = rest.substring_char(m + 1, rn);
        proof {
            let tail = rest@.subrange(m + 1, rn as int);
            assert forall|k: int| 0 <= k < tail.len() implies is_word_char(tail[k]) by {
                assert(tail[k] == rest@[m + 1 + k]);
            }
        }
        Some((String::from_str(port), String::from_str(node), String::from_str(driver)))
    }
}

} // verus!
