use vstd::prelude::*;

verus! {

/// The pages of the navigation bar, in the order in which they are listed.
#[derive(Clone, Copy, Debug, PartialEq, Eq, Structural)]
pub enum NavPage {
    Dashboard,
    Processes,
    Cpu,
    Memory,
    Gpu,
    Disk,
    Network,
}

/// The pages that the context drawer can show.
#[derive(Clone, Copy, Debug, PartialEq, Eq, Structural)]
pub enum ContextPage {
    About,
    Settings,
}

/// The order in which the navigation bar lists its pages.
pub open spec fn nav_order() -> Seq<NavPage> {
    seq![
        NavPage::Dashboard,
        NavPage::Processes,
        NavPage::Cpu,
        NavPage::Memory,
        NavPage::Gpu,
        NavPage::Disk,
        NavPage::Network,
    ]
}

impl NavPage {
    /// Every page, in navigation order, each exactly once.
    pub fn all() -> (pages: &'static [NavPage])
        ensures
            pages@ == nav_order(),
    {
        &[
            NavPage::Dashboard,
            NavPage::Processes,
            NavPage::Cpu,
            NavPage::Memory,
            NavPage::Gpu,
            NavPage::Disk,
            NavPage::Network,
        ]
    }

    /// The key under which the message catalog holds the page's title.
    pub open spec fn title_key(self) -> Seq<char> {
        match self {
            NavPage::Dashboard => "dashboard"@,
            NavPage::Processes => "processes"@,
            NavPage::Cpu => "cpu"@,
            NavPage::Memory => "memory"@,
            NavPage::Gpu => "gpu"@,
            NavPage::Disk => "disk"@,
            NavPage::Network => "network"@,
        }
    }

    /// The key of the page's title in the message catalog.
    pub fn message_id(&self) -> (id: &'static str)
        ensures
            id@ == self.title_key(),
    {
        match self {
            NavPage::Dashboard => "dashboard",
            NavPage::Processes => "processes",
            NavPage::Cpu => "cpu",
            NavPage::Memory => "memory",
            NavPage::Gpu => "gpu",
            NavPage::Disk => "disk",
            NavPage::Network => "network",
        }
    }

    /// The heading of the page in the user's language: the text that `catalog`
    /// (pairs of key and translated text, of the loaded language) holds for the
    /// page's key; the key itself where the catalog has no entry for it.
    pub fn title(&self, catalog: &Vec<(String, String)>) -> (title: String)
        ensures
            title@ == translated(catalog@, self.title_key()),
    {
        let key = String::from_str(self.message_id());
        let mut i: usize = 0;
        while i < catalog.len()
            invariant
                i <= catalog@.len(),
                key@ == self.title_key(),
                forall|j: int| 0 <= j < i ==> catalog@[j].0@ != key@,
            decreases catalog@.len() - i,
        {
            if catalog[i].0 == key {
                proof {
                    lemma_translated_found(catalog@, key@, i as int);
                }
                return catalog[i].1.clone();
            }
            i = i + 1;
        }
        proof {
            lemma_translated_absent(catalog@, key@);
        }
        key
    }
}

/// The text that `catalog` holds for `key`: that of its first entry with this key,
/// or the key itself where there is none.
pub open spec fn translated(catalog: Seq<(String, String)>, key: Seq<char>) -> Seq<char> {
    if exists|i: int| 0 <= i < catalog.len() && catalog[i].0@ == key {
        catalog[choose|i: int|
            0 <= i < catalog.len() && catalog[i].0@ == key && forall|j: int|
                0 <= j < i ==> catalog[j].0@ != key].1@
    } else {
        key
    }
}

proof fn lemma_translated_found(catalog: Seq<(String, String)>, key: Seq<char>, i: int)
    requires
        0 <= i < catalog.len(),
        catalog[i].0@ == key,
        forall|j: int| 0 <= j < i ==> catalog[j].0@ != key,
    ensures
        translated(catalog, key) == catalog[i].1@,
{
    let c = choose|c: int|
        0 <= c < catalog.len() && catalog[c].0@ == key && forall|j: int|
            0 <= j < c ==> catalog[j].0@ != key;
    if c < i {
    } else if c > i {
        assert(catalog[i].0@ != key);
    }
}

proof fn lemma_translated_absent(catalog: Seq<(String, String)>, key: Seq<char>)
    requires
        forall|j: int| 0 <= j < catalog.len() ==> catalog[j].0@ != key,
    ensures
        translated(catalog, key) == key,
{
}

/// The navigation bar lists every page exactly once, the dashboard first.
pub proof fn lemma_nav_order_lists_each_page_once(page: NavPage)
    ensures
        nav_order()[0] == NavPage::Dashboard,
        nav_order().contains(page),
        forall|i: int, j: int|
            0 <= i < j < nav_order().len() ==> nav_order()[i] != nav_order()[j],
{
    let s = nav_order();
    match page {
        NavPage::Dashboard => assert(s[0] == page),
        NavPage::Processes => assert(s[1] == page),
        NavPage::Cpu => assert(s[2] == page),
        NavPage::Memory => assert(s[3] == page),
        NavPage::Gpu => assert(s[4] == page),
        NavPage::Disk => assert(s[5] == page),
        NavPage::Network => assert(s[6] == page),
    }
}

} // verus!
