//! Link sets: the distinct links that the anchors of fetched pages yield
//! under a vendor's rule. A crawl that yields no link at all is a
//! configuration error, not an empty piece of work.

use crate::table::{lemma_assoc, Table};
use crate::tasks::join3;
use crate::text::{contains, ends_with, has_prefix, has_suffix, occurs, starts_with};
use vstd::prelude::*;

verus! {

/// Which anchor targets of a page count as links, and the base that
/// makes them absolute.
#[derive(Debug)]
pub struct LinkRule {
    /// What a target must begin with.
    pub prefix: String,
    /// What a target must end with.
    pub suffix: String,
    /// What a target must not contain.
    pub excluded: Vec<String>,
    /// What is put in front of an accepted target.
    pub base: String,
}

/// A rule as contracts see it.
pub struct RuleView {
    pub prefix: Seq<char>,
    pub suffix: Seq<char>,
    pub excluded: Seq<Seq<char>>,
    pub base: Seq<char>,
}

impl View for LinkRule {
    type V = RuleView;

    open spec fn view(&self) -> RuleView {
        RuleView {
            prefix: self.prefix@,
            suffix: self.suffix@,
            excluded: self.excluded@.map_values(|e: String| e@),
            base: self.base@,
        }
    }
}

/// The views of a sequence of strings.
pub open spec fn text_views(v: Seq<String>) -> Seq<Seq<char>> {
    v.map_values(|s: String| s@)
}

/// Whether the rule accepts the target `href`.
pub open spec fn accepts(rule: RuleView, href: Seq<char>) -> bool {
    &&& has_prefix(href, rule.prefix)
    &&& has_suffix(href, rule.suffix)
    &&& forall|i: int| 0 <= i < rule.excluded.len() ==> !occurs(href, #[trigger] rule.excluded[i])
}

/// The link that an accepted target stands for.
pub open spec fn link_of(rule: RuleView, href: Seq<char>) -> Seq<char> {
    rule.base + href
}

/// The links that the targets `hrefs` yield under the rule.
pub open spec fn links_of(rule: RuleView, hrefs: Seq<Seq<char>>) -> Set<Seq<char>> {
    Set::new(
        |l: Seq<char>|
            exists|i: int|
                0 <= i < hrefs.len() && accepts(rule, #[trigger] hrefs[i]) && l == link_of(
                    rule,
                    hrefs[i],
                ),
    )
}

/// `links` with `link` at its end unless it holds `link` already.
pub open spec fn with_link(links: Seq<Seq<char>>, link: Seq<char>) -> Seq<Seq<char>> {
    if links.contains(link) {
        links
    } else {
        links.push(link)
    }
}

/// `links` followed by the links that the targets `hrefs` yield under
/// the rule, in their order, each link at its first place only.
pub open spec fn collected(links: Seq<Seq<char>>, rule: RuleView, hrefs: Seq<Seq<char>>) -> Seq<
    Seq<char>,
>
    decreases hrefs.len(),
{
    if hrefs.len() == 0 {
        links
    } else if accepts(rule, hrefs.last()) {
        with_link(collected(links, rule, hrefs.drop_last()), link_of(rule, hrefs.last()))
    } else {
        collected(links, rule, hrefs.drop_last())
    }
}

/// One more target adds its link if the rule accepts it, and nothing
/// otherwise.
pub proof fn lemma_links_step(rule: RuleView, hrefs: Seq<Seq<char>>, i: int)
    requires
        0 <= i < hrefs.len(),
    ensures
        links_of(rule, hrefs.take(i + 1)) == if accepts(rule, hrefs[i]) {
            links_of(rule, hrefs.take(i)).insert(link_of(rule, hrefs[i]))
        } else {
            links_of(rule, hrefs.take(i))
        },
{
    let more = hrefs.take(i + 1);
    let less = hrefs.take(i);
    let a = links_of(rule, more);
    let b = links_of(rule, less);
    assert forall|l: Seq<char>| a.contains(l) implies b.contains(l) || (accepts(rule, hrefs[i]) && l
        == link_of(rule, hrefs[i])) by {
        let j = choose|j: int|
            0 <= j < more.len() && accepts(rule, #[trigger] more[j]) && l == link_of(rule, more[j]);
        if j < i {
            assert(less[j] == more[j]);
        }
    }
    assert forall|l: Seq<char>| b.contains(l) implies a.contains(l) by {
        let j = choose|j: int|
            0 <= j < less.len() && accepts(rule, #[trigger] less[j]) && l == link_of(rule, less[j]);
        assert(more[j] == less[j]);
    }
    if accepts(rule, hrefs[i]) {
        assert(more[i] == hrefs[i]);
        assert(a.contains(link_of(rule, hrefs[i])));
        assert(a =~= b.insert(link_of(rule, hrefs[i])));
    } else {
        assert(a =~= b);
    }
}

impl LinkRule {
    /// The rule that accepts every target and takes it as the link.
    pub fn all() -> (r: LinkRule)
        ensures
            r@.excluded.len() == 0,
            forall|href: Seq<char>| accepts(r@, href) && link_of(r@, href) == href,
    {
        let r = LinkRule {
            prefix: String::new(),
            suffix: String::new(),
            excluded: Vec::new(),
            base: String::new(),
        };
        proof {
            assert forall|href: Seq<char>| accepts(r@, href) && link_of(r@, href) == href by {
                assert(href.subrange(0, 0) =~= Seq::<char>::empty());
                assert(href.subrange(href.len() as int, href.len() as int) =~= Seq::<char>::empty());
                assert(Seq::<char>::empty() + href =~= href);
            }
        }
        r
    }

    /// Whether the rule accepts the target `href`.
    pub fn accepts(&self, href: &str) -> (r: bool)
        ensures
            r == accepts(self@, href@),
    {
        if !starts_with(href, self.prefix.as_str()) {
            return false;
        }
        if !ends_with(href, self.suffix.as_str()) {
            return false;
        }
        let n = self.excluded.len();
        let mut i: usize = 0;
        while i < n
            invariant
                n == self.excluded@.len(),
                i <= n,
                forall|j: int| 0 <= j < i ==> !occurs(href@, #[trigger] self@.excluded[j]),
            decreases n - i,
        {
            if contains(href, self.excluded[i].as_str()) {
                assert(occurs(href@, self@.excluded[i as int]));
                return false;
            }
            i += 1;
        }
        true
    }

    /// The link that the target `href` stands for.
    pub fn link(&self, href: &str) -> (l: String)
        ensures
            l@ == link_of(self@, href@),
    {
        proof {
            reveal_strlit("");
            assert(self.base@ + href@ + ""@ =~= self.base@ + href@);
        }
        join3(self.base.as_str(), href, "")
    }
}

/// Why a collection failed.
#[derive(Clone, Copy, Debug, PartialEq, Eq, Structural)]
pub enum CollectError {
    /// The pages yielded no link: their layout has changed.
    NoLinks,
    /// The pages yielded no category.
    NoCategories,
}

/// A set of distinct links.
pub struct LinkSet {
    links: Table<()>,
}

impl LinkSet {
    pub closed spec fn wf(&self) -> bool {
        self.links.wf()
    }

    /// The links as a set.
    pub closed spec fn view(&self) -> Set<Seq<char>> {
        self.links@.dom()
    }

    /// The links in the order in which they were first inserted.
    pub closed spec fn link_seq(&self) -> Seq<Seq<char>> {
        self.links.key_seq()
    }

    /// The set holds exactly the links of its sequence, each once.
    pub proof fn lemma_seq(&self)
        requires
            self.wf(),
        ensures
            self.link_seq().no_duplicates(),
            self@ == self.link_seq().to_set(),
            self@.finite(),
            self@.len() == self.link_seq().len(),
    {
        lemma_assoc(self.links.key_seq(), self.links.val_seq());
    }

    pub fn new() -> (s: Self)
        ensures
            s.wf(),
            s@ == Set::<Seq<char>>::empty(),
            s.link_seq() == Seq::<Seq<char>>::empty(),
    {
        let s = LinkSet { links: Table::new() };
        proof {
            assert(s@ =~= Set::<Seq<char>>::empty());
        }
        s
    }

    /// The number of links.
    pub fn len(&self) -> (n: usize)
        requires
            self.wf(),
        ensures
            self@.finite(),
            n == self@.len(),
            n == self.link_seq().len(),
    {
        self.links.len()
    }

    /// Whether the set holds `link`.
    pub fn contains(&self, link: &String) -> (r: bool)
        requires
            self.wf(),
        ensures
            r == self@.contains(link@),
    {
        self.links.position(link).is_some()
    }

    /// The link at position `i`.
    pub fn link_at(&self, i: usize) -> (l: &String)
        requires
            self.wf(),
            i < self.link_seq().len(),
        ensures
            l@ == self.link_seq()[i as int],
            self@.contains(l@),
    {
        proof {
            lemma_assoc(self.links.key_seq(), self.links.val_seq());
        }
        self.links.key_at(i)
    }

    /// Adds `link` and tells whether it was new.
    pub fn insert(&mut self, link: String) -> (added: bool)
        requires
            old(self).wf(),
        ensures
            final(self).wf(),
            final(self)@ == old(self)@.insert(link@),
            added == !old(self)@.contains(link@),
            final(self).link_seq() == with_link(old(self).link_seq(), link@),
    {
        proof {
            lemma_assoc(self.links.key_seq(), self.links.val_seq());
        }
        let replaced = self.links.insert(link, ());
        proof {
            assert(self@ =~= old(self)@.insert(link@));
        }
        !replaced
    }

    /// Adds the links that the targets `hrefs` yield under `rule`.
    pub fn extend(&mut self, rule: &LinkRule, hrefs: &Vec<String>)
        requires
            old(self).wf(),
        ensures
            final(self).wf(),
            final(self)@ == old(self)@.union(links_of(rule@, text_views(hrefs@))),
            final(self).link_seq() == collected(old(self).link_seq(), rule@, text_views(hrefs@)),
    {
        let ghost targets = text_views(hrefs@);
        let n = hrefs.len();
        let mut i: usize = 0;
        proof {
            assert(links_of(rule@, targets.take(0)) =~= Set::<Seq<char>>::empty());
            assert(self@ =~= old(self)@.union(links_of(rule@, targets.take(0))));
        }
        while i < n
            invariant
                self.wf(),
                targets == text_views(hrefs@),
                n == hrefs@.len(),
                i <= n,
                self@ == old(self)@.union(links_of(rule@, targets.take(i as int))),
                self.link_seq() == collected(old(self).link_seq(), rule@, targets.take(i as int)),
            decreases n - i,
        {
            let href = hrefs[i].as_str();
            proof {
                lemma_links_step(rule@, targets, i as int);
                assert(targets.take(i + 1).drop_last() =~= targets.take(i as int));
            }
            if rule.accepts(href) {
                self.insert(rule.link(href));
                proof {
                    assert(self@ =~= old(self)@.union(links_of(rule@, targets.take(i + 1))));
                }
            }
            i += 1;
        }
        proof {
            assert(targets.take(n as int) =~= targets);
        }
    }
}

/// The set of links that the targets `hrefs` yield under `rule`; an
/// error where they yield none.
pub fn collect_links(rule: &LinkRule, hrefs: &Vec<String>) -> (r: Result<LinkSet, CollectError>)
    ensures
        match r {
            Ok(set) => set.wf() && set@ == links_of(rule@, text_views(hrefs@)) && set@.len() > 0
                && set.link_seq() == collected(Seq::empty(), rule@, text_views(hrefs@)),
            Err(e) => e == CollectError::NoLinks && links_of(rule@, text_views(hrefs@))
                == Set::<Seq<char>>::empty(),
        },
{
    let mut set = LinkSet::new();
    set.extend(rule, hrefs);
    proof {
        assert(set@ =~= links_of(rule@, text_views(hrefs@)));
        set.lemma_seq();
    }
    if set.len() == 0 {
        proof {
            assert(set.link_seq().to_set() =~= Set::<Seq<char>>::empty());
        }
        Err(CollectError::NoLinks)
    } else {
        Ok(set)
    }
}

/// The identifiers of a category index, which goes from label to
/// identifier, in the index's order; an error where the index is empty.
pub fn category_ids(index: &Table<String>) -> (r: Result<Vec<String>, CollectError>)
    requires
        index.wf(),
    ensures
        match r {
            Ok(ids) => ids@.len() == index.key_seq().len() && ids@.len() > 0 && forall|i: int|
                0 <= i < ids@.len() ==> (#[trigger] ids@[i])@ == index@[index.key_seq()[i]]@,
            Err(e) => e == CollectError::NoCategories && index.key_seq().len() == 0,
        },
{
    let n = index.len();
    if n == 0 {
        return Err(CollectError::NoCategories);
    }
    let mut ids: Vec<String> = Vec::new();
    let mut i: usize = 0;
    while i < n
        invariant
            index.wf(),
            n == index.key_seq().len(),
            i <= n,
            ids@.len() == i,
            forall|j: int| 0 <= j < i ==> (#[trigger] ids@[j])@ == index@[index.key_seq()[j]]@,
        decreases n - i,
    {
        ids.push(index.value_at(i).clone());
        i += 1;
    }
    Ok(ids)
}

} // verus!
