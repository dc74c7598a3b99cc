//! The page layout model: the components a page is assembled from and the
//! default layouts, plus the searches that decide which client scripts a
//! layout needs.

use vstd::prelude::*;

verus! {

/// One layout component; containers nest further components.
#[derive(Debug)]
pub enum LayoutComponent {
    Head,
    Footer(FooterConfig),
    PageTitle,
    Breadcrumbs,
    ArticleTitle,
    ContentMeta,
    TagList,
    Search,
    Darkmode,
    ReaderMode,
    Explorer(ExplorerConfig),
    Graph,
    TableOfContents,
    Backlinks(BacklinksConfig),
    Spacer,
    Flex(FlexConfig),
    MobileOnly(Box<LayoutComponent>),
    DesktopOnly(Box<LayoutComponent>),
}

/// One item of a flex container.
#[derive(Debug)]
pub struct FlexItem {
    pub component: LayoutComponent,
    pub grow: bool,
    pub shrink: bool,
    pub basis: Option<String>,
    pub order: Option<i32>,
    pub align: Option<String>,
    pub justify: Option<String>,
}

/// A flex container of layout components.
#[derive(Debug)]
pub struct FlexConfig {
    pub components: Vec<FlexItem>,
    pub direction: Option<String>,
    pub wrap: Option<String>,
    pub gap: Option<String>,
}

/// The configurable parts of the layout.
#[derive(Debug, Clone)]
pub struct LayoutConfig {
    pub footer: FooterConfig,
    pub explorer: ExplorerConfig,
    pub backlinks: BacklinksConfig,
}

impl Default for LayoutConfig {
    /// Default footer, explorer and backlinks settings.
    fn default() -> (r: LayoutConfig)
        ensures
            is_default_explorer(r.explorer),
            is_default_backlinks(r.backlinks),
            is_default_footer(r.footer),
    {
        LayoutConfig {
            footer: FooterConfig::default(),
            explorer: ExplorerConfig::default(),
            backlinks: BacklinksConfig::default(),
        }
    }
}

/// The explorer sidebar's settings.
#[derive(Debug, Clone)]
pub struct ExplorerConfig {
    pub title: String,
    pub folder_default_state: String,
    pub folder_click_behavior: String,
    pub use_saved_state: bool,
    pub sort_fn: String,
    pub filter_fn: String,
    pub map_fn: String,
    pub order: Vec<String>,
}

/// Does this explorer configuration hold the default values?
pub open spec fn is_default_explorer(c: ExplorerConfig) -> bool {
    &&& c.title@ == "Explorer"@
    &&& c.folder_default_state@ == "collapsed"@
    &&& c.folder_click_behavior@ == "collapse"@
    &&& c.use_saved_state
    &&& c.order.deep_view() == seq!["filter"@, "map"@, "sort"@]
}

impl Default for ExplorerConfig {
    /// The collapsed explorer with the stock client-side behavior.
    fn default() -> (r: ExplorerConfig)
        ensures
            is_default_explorer(r),
    {
        let mut order: Vec<String> = Vec::new();
        order.push(String::from_str("filter"));
        order.push(String::from_str("map"));
        order.push(String::from_str("sort"));
        proof {
            assert(order.deep_view() =~~= seq!["filter"@, "map"@, "sort"@]);
        }
        ExplorerConfig {
            title: String::from_str("Explorer"),
            folder_default_state: String::from_str("collapsed"),
            folder_click_behavior: String::from_str("collapse"),
            use_saved_state: true,
            sort_fn: String::from_str(
                "(a,b)=>{if((!a.isFolder&&!b.isFolder)||(a.isFolder&&b.isFolder)){return a.displayName.localeCompare(b.displayName,undefined,{numeric:true,sensitivity:'base'});}if(!a.isFolder&&b.isFolder){return 1;}else{return -1;}}",
            ),
            filter_fn: String::from_str("(node)=>node.slugSegment!=='tags'"),
            map_fn: String::from_str("(node)=>node"),
            order,
        }
    }
}

/// The backlinks panel's settings.
#[derive(Debug, Clone)]
pub struct BacklinksConfig {
    pub title: String,
    pub empty_text: String,
    pub hide_when_empty: bool,
}

/// Does this backlinks configuration hold the default values?
pub open spec fn is_default_backlinks(c: BacklinksConfig) -> bool {
    &&& c.title@ == "Backlinks"@
    &&& c.empty_text@ == "No backlinks found."@
    &&& c.hide_when_empty
}

impl Default for BacklinksConfig {
    /// The stock backlinks panel, hidden when empty.
    fn default() -> (r: BacklinksConfig)
        ensures
            is_default_backlinks(r),
    {
        BacklinksConfig {
            title: String::from_str("Backlinks"),
            empty_text: String::from_str("No backlinks found."),
            hide_when_empty: true,
        }
    }
}

/// The footer's settings: its links as label–URL pairs in display order.
#[derive(Debug, Clone)]
pub struct FooterConfig {
    pub links: Vec<(String, String)>,
}

/// Does this footer configuration hold the default links?
pub open spec fn is_default_footer(c: FooterConfig) -> bool {
    &&& c.links@.len() == 2
    &&& c.links@[0].0@ == "Discord Community"@
    &&& c.links@[0].1@ == "https://discord.gg/cRFFHYye7t"@
    &&& c.links@[1].0@ == "GitHub"@
    &&& c.links@[1].1@ == "https://github.com/jackyzha0/quartz"@
}

/// The default footer links, sorted by label.
pub fn default_footer_links() -> (r: Vec<(String, String)>)
    ensures
        r@.len() == 2,
        r@[0].0@ == "Discord Community"@,
        r@[0].1@ == "https://discord.gg/cRFFHYye7t"@,
        r@[1].0@ == "GitHub"@,
        r@[1].1@ == "https://github.com/jackyzha0/quartz"@,
{
    let mut links: Vec<(String, String)> = Vec::new();
    links.push(
        (String::from_str("Discord Community"), String::from_str("https://discord.gg/cRFFHYye7t")),
    );
    links.push(
        (String::from_str("GitHub"), String::from_str("https://github.com/jackyzha0/quartz")),
    );
    links
}

impl Default for FooterConfig {
    /// The stock footer links.
    fn default() -> (r: FooterConfig)
        ensures
            is_default_footer(r),
    {
        FooterConfig { links: default_footer_links() }
    }
}

/// The per-kind parts of a page layout.
#[derive(Debug)]
pub struct PageLayout {
    pub before_body: Vec<LayoutComponent>,
    pub left: Vec<LayoutComponent>,
    pub right: Vec<LayoutComponent>,
}

/// The parts every page shares.
#[derive(Debug)]
pub struct SharedLayout {
    pub head: LayoutComponent,
    pub header: Vec<LayoutComponent>,
    pub footer: LayoutComponent,
    pub after_body: Vec<LayoutComponent>,
}

/// The search-and-darkmode header stack, with an optional reader-mode
/// toggle.
pub fn flex_header_stack(include_reader: bool) -> (r: LayoutComponent)
    ensures
        r matches LayoutComponent::Flex(cfg) && {
            &&& cfg.components@.len() == (if include_reader {
                3int
            } else {
                2int
            })
            &&& cfg.components@[0].component is Search
            &&& cfg.components@[0].grow
            &&& cfg.components@[1].component is Darkmode
            &&& include_reader ==> cfg.components@[2].component is ReaderMode
            &&& cfg.direction matches Some(d) && d@ == "row"@
            &&& cfg.wrap is None
            &&& cfg.gap matches Some(g) && g@ == "1rem"@
        },
{
    let mut components: Vec<FlexItem> = Vec::new();
    components.push(
        FlexItem {
            component: LayoutComponent::Search,
            grow: true,
            shrink: false,
            basis: None,
            order: None,
            align: None,
            justify: None,
        },
    );
    components.push(
        FlexItem {
            component: LayoutComponent::Darkmode,
            grow: false,
            shrink: false,
            basis: None,
            order: None,
            align: None,
            justify: None,
        },
    );
    if include_reader {
        components.push(
            FlexItem {
                component: LayoutComponent::ReaderMode,
                grow: false,
                shrink: false,
                basis: None,
                order: None,
                align: None,
                justify: None,
            },
        );
    }
    LayoutComponent::Flex(
        FlexConfig {
            components,
            direction: Some(String::from_str("row")),
            wrap: None,
            gap: Some(String::from_str("1rem")),
        },
    )
}

/// The shared layout for a site: a head, no extra header or after-body
/// components, and the configured footer.
pub fn shared_layout(cfg: &crate::config::SiteConfig) -> (r: SharedLayout)
    ensures
        r.head is Head,
        r.header@.len() == 0,
        r.after_body@.len() == 0,
        r.footer matches LayoutComponent::Footer(f) && f.links@ == cfg.layout.footer.links@,
{
    let footer_cfg = FooterConfig {
        links: clone_links(&cfg.layout.footer.links),
    };
    SharedLayout {
        head: LayoutComponent::Head,
        header: Vec::new(),
        after_body: Vec::new(),
        footer: LayoutComponent::Footer(footer_cfg),
    }
}

/// A pairwise copy of footer links.
pub fn clone_links(links: &Vec<(String, String)>) -> (r: Vec<(String, String)>)
    ensures
        r@ == links@,
{
    let mut r: Vec<(String, String)> = Vec::new();
    let n = links.len();
    let mut i: usize = 0;
    while i < n
        invariant
            i <= n == links@.len(),
            r@ =~= links@.take(i as int),
        decreases n - i,
    {
        r.push((links[i].0.clone(), links[i].1.clone()));
        assert(r@ =~= links@.take(i + 1));
        i = i + 1;
    }
    assert(r@ =~= links@);
    r
}

/// The default layout for a content page.
pub fn default_content_page_layout() -> (r: PageLayout)
    ensures
        r.before_body@.len() == 4,
        r.before_body@[0] is Breadcrumbs,
        r.before_body@[1] is ArticleTitle,
        r.before_body@[2] is ContentMeta,
        r.before_body@[3] is TagList,
        r.left@.len() == 4,
        r.left@[0] is PageTitle,
        r.left@[1] matches LayoutComponent::MobileOnly(b) && *b is Spacer,
        r.left@[2] is Flex,
        r.left@[3] matches LayoutComponent::Explorer(e) && is_default_explorer(e),
        r.right@.len() == 3,
        r.right@[0] is Graph,
        r.right@[1] matches LayoutComponent::DesktopOnly(b) && *b is TableOfContents,
        r.right@[2] matches LayoutComponent::Backlinks(b) && is_default_backlinks(b),
{
    let mut before_body: Vec<LayoutComponent> = Vec::new();
    before_body.push(LayoutComponent::Breadcrumbs);
    before_body.push(LayoutComponent::ArticleTitle);
    before_body.push(LayoutComponent::ContentMeta);
    before_body.push(LayoutComponent::TagList);
    let mut left: Vec<LayoutComponent> = Vec::new();
    left.push(LayoutComponent::PageTitle);
    left.push(LayoutComponent::MobileOnly(Box::new(LayoutComponent::Spacer)));
    left.push(flex_header_stack(true));
    left.push(LayoutComponent::Explorer(ExplorerConfig::default()));
    let mut right: Vec<LayoutComponent> = Vec::new();
    right.push(LayoutComponent::Graph);
    right.push(LayoutComponent::DesktopOnly(Box::new(LayoutComponent::TableOfContents)));
    right.push(LayoutComponent::Backlinks(BacklinksConfig::default()));
    PageLayout { before_body, left, right }
}

/// The default layout for a list page.
pub fn default_list_page_layout() -> (r: PageLayout)
    ensures
        r.before_body@.len() == 4,
        r.before_body@[0] is Breadcrumbs,
        r.before_body@[1] is ArticleTitle,
        r.before_body@[2] is ContentMeta,
        r.before_body@[3] is TagList,
        r.left@.len() == 4,
        r.left@[0] is PageTitle,
        r.left@[1] matches LayoutComponent::MobileOnly(b) && *b is Spacer,
        r.left@[2] is Flex,
        r.left@[3] matches LayoutComponent::Explorer(e) && is_default_explorer(e),
        r.right@.len() == 0,
{
    let mut before_body: Vec<LayoutComponent> = Vec::new();
    before_body.push(LayoutComponent::Breadcrumbs);
    before_body.push(LayoutComponent::ArticleTitle);
    before_body.push(LayoutComponent::ContentMeta);
    before_body.push(LayoutComponent::TagList);
    let mut left: Vec<LayoutComponent> = Vec::new();
    left.push(LayoutComponent::PageTitle);
    left.push(LayoutComponent::MobileOnly(Box::new(LayoutComponent::Spacer)));
    left.push(flex_header_stack(false));
    left.push(LayoutComponent::Explorer(ExplorerConfig::default()));
    PageLayout { before_body, left, right: Vec::new() }
}

/// Does this component contain an explorer, at any nesting depth?
pub open spec fn spec_has_explorer(c: LayoutComponent) -> bool
    decreases c,
{
    match c {
        LayoutComponent::Explorer(_) => true,
        LayoutComponent::Flex(cfg) => exists|i: int|
            0 <= i < cfg.components@.len() && spec_has_explorer(
                #[trigger] cfg.components@[i].component,
            ),
        LayoutComponent::MobileOnly(inner) => spec_has_explorer(*inner),
        LayoutComponent::DesktopOnly(inner) => spec_has_explorer(*inner),
        _ => false,
    }
}

/// Does any component of the list contain an explorer?
pub open spec fn spec_list_has_explorer(l: Seq<LayoutComponent>) -> bool {
    exists|i: int| 0 <= i < l.len() && spec_has_explorer(#[trigger] l[i])
}

/// Does this component contain an explorer?
#[verifier::loop_isolation(false)]
pub fn component_has_explorer(component: &LayoutComponent) -> (r: bool)
    ensures
        r == spec_has_explorer(*component),
    decreases *component,
{
    match component {
        LayoutComponent::Explorer(_) => true,
        LayoutComponent::Flex(cfg) => {
            let n = cfg.components.len();
            let mut i: usize = 0;
            while i < n
                invariant
                    i <= n == cfg.components@.len(),
                    forall|k: int|
                        0 <= k < i ==> !spec_has_explorer(
                            #[trigger] cfg.components@[k].component,
                        ),
                decreases n - i,
            {
                proof {
                    let c0 = (*component)->Flex_0;
                    assert(decreases_to!(*component => c0));
                    assert(decreases_to!(c0 => c0.components));
                    assert(decreases_to!(c0.components => c0.components@));
                    assert(decreases_to!(c0.components@ => c0.components@[i as int]));
                    assert(decreases_to!(c0.components@[i as int] => c0.components@[i as int].component));
                    assert(decreases_to!(*component => cfg.components@[i as int].component));
                }
                if component_has_explorer(&cfg.components[i].component) {
                    return true;
                }
                i = i + 1;
            }
            false
        },
        LayoutComponent::MobileOnly(inner) => component_has_explorer(inner),
        LayoutComponent::DesktopOnly(inner) => component_has_explorer(inner),
        _ => false,
    }
}

/// Does any component of the list contain an explorer?
pub fn component_list_has_explorer(list: &Vec<LayoutComponent>) -> (r: bool)
    ensures
        r == spec_list_has_explorer(list@),
{
    let n = list.len();
    let mut i: usize = 0;
    while i < n
        invariant
            i <= n == list@.len(),
            forall|k: int| 0 <= k < i ==> !spec_has_explorer(#[trigger] list@[k]),
        decreases n - i,
    {
        if component_has_explorer(&list[i]) {
            return true;
        }
        i = i + 1;
    }
    false
}

/// Does this component contain a graph, at any nesting depth?
pub open spec fn spec_has_graph(c: LayoutComponent) -> bool
    decreases c,
{
    match c {
        LayoutComponent::Graph => true,
        LayoutComponent::Flex(cfg) => exists|i: int|
            0 <= i < cfg.components@.len() && spec_has_graph(
                #[trigger] cfg.components@[i].component,
            ),
        LayoutComponent::MobileOnly(inner) => spec_has_graph(*inner),
        LayoutComponent::DesktopOnly(inner) => spec_has_graph(*inner),
        _ => false,
    }
}

/// Does any component of the list contain a graph?
pub open spec fn spec_list_has_graph(l: Seq<LayoutComponent>) -> bool {
    exists|i: int| 0 <= i < l.len() && spec_has_graph(#[trigger] l[i])
}

/// Does this component contain a graph?
#[verifier::loop_isolation(false)]
pub fn component_has_graph(component: &LayoutComponent) -> (r: bool)
    ensures
        r == spec_has_graph(*component),
    decreases *component,
{
    match component {
        LayoutComponent::Graph => true,
        LayoutComponent::Flex(cfg) => {
            let n = cfg.components.len();
            let mut i: usize = 0;
            while i < n
                invariant
                    i <= n == cfg.components@.len(),
                    forall|k: int|
                        0 <= k < i ==> !spec_has_graph(#[trigger] cfg.components@[k].component),
                decreases n - i,
            {
                proof {
                    let c0 = (*component)->Flex_0;
                    assert(decreases_to!(*component => c0));
                    assert(decreases_to!(c0 => c0.components));
                    assert(decreases_to!(c0.components => c0.components@));
                    assert(decreases_to!(c0.components@ => c0.components@[i as int]));
                    assert(decreases_to!(c0.components@[i as int] => c0.components@[i as int].component));
                    assert(decreases_to!(*component => cfg.components@[i as int].component));
                }
                if component_has_graph(&cfg.components[i].component) {
                    return true;
                }
                i = i + 1;
            }
            false
        },
        LayoutComponent::MobileOnly(inner) => component_has_graph(inner),
        LayoutComponent::DesktopOnly(inner) => component_has_graph(inner),
        _ => false,
    }
}

/// Does any component of the list contain a graph?
pub fn component_list_has_graph(list: &Vec<LayoutComponent>) -> (r: bool)
    ensures
        r == spec_list_has_graph(list@),
{
    let n = list.len();
    let mut i: usize = 0;
    while i < n
        invariant
            i <= n == list@.len(),
            forall|k: int| 0 <= k < i ==> !spec_has_graph(#[trigger] list@[k]),
        decreases n - i,
    {
        if component_has_graph(&list[i]) {
            return true;
        }
        i = i + 1;
    }
    false
}

/// Does an explorer occur anywhere in the shared, content or list layouts?
pub fn layout_contains_explorer(
    shared: &SharedLayout,
    content: &PageLayout,
    list: &PageLayout,
) -> (r: bool)
    ensures
        r == ({
            ||| spec_list_has_explorer(shared.header@)
            ||| spec_list_has_explorer(content.left@)
            ||| spec_list_has_explorer(content.before_body@)
            ||| spec_list_has_explorer(content.right@)
            ||| spec_list_has_explorer(list.left@)
            ||| spec_list_has_explorer(list.before_body@)
            ||| spec_list_has_explorer(list.right@)
            ||| shared.head is Explorer
            ||| shared.footer is Explorer
            ||| spec_list_has_explorer(shared.after_body@)
        }),
{
    component_list_has_explorer(&shared.header) || component_list_has_explorer(&content.left)
        || component_list_has_explorer(&content.before_body) || component_list_has_explorer(
        &content.right,
    ) || component_list_has_explorer(&list.left) || component_list_has_explorer(
        &list.before_body,
    ) || component_list_has_explorer(&list.right) || matches!(shared.head,
        LayoutComponent::Explorer(_)) || matches!(shared.footer, LayoutComponent::Explorer(_))
        || component_list_has_explorer(&shared.after_body)
}

/// Does a graph occur anywhere in the shared, content or list layouts?
pub fn layout_contains_graph(
    shared: &SharedLayout,
    content: &PageLayout,
    list: &PageLayout,
) -> (r: bool)
    ensures
        r == ({
            ||| spec_list_has_graph(shared.header@)
            ||| spec_list_has_graph(content.left@)
            ||| spec_list_has_graph(content.before_body@)
            ||| spec_list_has_graph(content.right@)
            ||| spec_list_has_graph(list.left@)
            ||| spec_list_has_graph(list.before_body@)
            ||| spec_list_has_graph(list.right@)
            ||| shared.head is Graph
            ||| shared.footer is Graph
            ||| spec_list_has_graph(shared.after_body@)
        }),
{
    component_list_has_graph(&shared.header) || component_list_has_graph(&content.left)
        || component_list_has_graph(&content.before_body) || component_list_has_graph(
        &content.right,
    ) || component_list_has_graph(&list.left) || component_list_has_graph(&list.before_body)
        || component_list_has_graph(&list.right) || matches!(shared.head, LayoutComponent::Graph)
        || matches!(shared.footer, LayoutComponent::Graph) || component_list_has_graph(
        &shared.after_body,
    )
}

} // verus!
