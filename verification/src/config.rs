//! The site configuration the engine is constructed with: global options,
//! theme, server and path settings, and the per-page resource lists.

use vstd::prelude::*;

use crate::digest::{sha256_of, sha256_hex, spec_to_hex};
use crate::layout::LayoutConfig;
use crate::text::{push_str_chars, spec_trim, to_chars, to_string, trim};

verus! {

broadcast use crate::text::lemma_vec_char_deep_view;

/// The fonts a theme uses for headers, body text and code.
#[derive(Debug, Clone)]
pub struct ThemeFonts {
    pub header: String,
    pub body: String,
    pub code: String,
}

/// One palette of theme colors.
#[derive(Debug, Clone)]
pub struct ThemePalette {
    pub light: String,
    pub lightgray: String,
    pub gray: String,
    pub darkgray: String,
    pub dark: String,
    pub secondary: String,
    pub tertiary: String,
    pub highlight: String,
    pub text_highlight: String,
}

/// The light and dark palettes of a theme.
#[derive(Debug, Clone)]
pub struct ThemeMode {
    pub light_mode: ThemePalette,
    pub dark_mode: ThemePalette,
}

/// The active theme: font origin, CDN caching, typography and colors.
#[derive(Debug, Clone)]
pub struct ThemeConfig {
    pub font_origin: String,
    pub cdn_caching: bool,
    pub typography: ThemeFonts,
    pub colors: ThemeMode,
}

/// Which date a page displays by default.
#[derive(Debug, Clone, Copy, PartialEq, Eq, Structural)]
pub enum DefaultDateType {
    Created,
    Modified,
    Published,
}

/// Global site options.
#[derive(Debug, Clone)]
pub struct GlobalConfiguration {
    pub page_title: String,
    pub tagline: Option<String>,
    pub page_title_suffix: String,
    pub enable_spa: bool,
    pub enable_popovers: bool,
    pub locale: String,
    pub base_url: Option<String>,
    pub ignore_patterns: Vec<String>,
    pub default_date_type: DefaultDateType,
    pub theme: ThemeConfig,
}

/// The HTTP server's settings.
#[derive(Debug, Clone)]
pub struct ServerConfig {
    pub host: String,
    pub port: u16,
    pub cors_origins: Vec<String>,
    pub max_payload_mb: usize,
}

impl Default for ServerConfig {
    /// Listen everywhere on the default port, with one CORS origin and a
    /// 100 MiB payload cap.
    fn default() -> (r: ServerConfig)
        ensures
            r.host@ == "0.0.0.0"@,
            r.port == 40075,
            r.cors_origins.deep_view() == seq!["0.0.0.0:40075"@],
            r.max_payload_mb == 100,
    {
        let mut origins: Vec<String> = Vec::new();
        origins.push(String::from_str("0.0.0.0:40075"));
        proof {
            assert(origins.deep_view() =~~= seq!["0.0.0.0:40075"@]);
        }
        ServerConfig {
            host: String::from_str("0.0.0.0"),
            port: 40075,
            cors_origins: origins,
            max_payload_mb: 100,
        }
    }
}

impl ServerConfig {
    /// The payload cap in bytes, saturating at the address-space limit.
    pub fn max_payload_bytes(&self) -> (r: usize)
        ensures
            r == if self.max_payload_mb * 1048576 <= usize::MAX {
                self.max_payload_mb * 1048576
            } else {
                usize::MAX as int
            },
    {
        if self.max_payload_mb <= usize::MAX / 1048576 {
            self.max_payload_mb * 1048576
        } else {
            proof {
                assert(self.max_payload_mb * 1048576 > usize::MAX) by (nonlinear_arith)
                    requires
                        self.max_payload_mb > usize::MAX / 1048576,
                ;
            }
            usize::MAX
        }
    }
}

/// Where content is read from and rendered output cached.
#[derive(Debug, Clone)]
pub struct PathsConfig {
    pub content_root: String,
    pub cache_root: String,
}

impl Default for PathsConfig {
    /// Content beside the binary, cache in a hidden build directory.
    fn default() -> (r: PathsConfig)
        ensures
            r.content_root@ == "../content"@,
            r.cache_root@ == "../.build"@,
    {
        PathsConfig {
            content_root: String::from_str("../content"),
            cache_root: String::from_str("../.build"),
        }
    }
}

/// Whether a script resource is fetched externally or inlined.
#[derive(Debug, Clone, Copy, PartialEq, Eq, Structural)]
pub enum JsContentType {
    External,
    Inline,
}

/// When a script resource loads relative to DOM readiness.
#[derive(Debug, Clone, Copy, PartialEq, Eq, Structural)]
pub enum JsLoadTime {
    BeforeDomReady,
    AfterDomReady,
}

/// One script resource a page pulls in.
#[derive(Debug, Clone)]
pub struct JsResource {
    pub load_time: JsLoadTime,
    pub content_type: JsContentType,
    pub module_type: Option<String>,
    pub spa_preserve: bool,
    pub src: Option<String>,
    pub script: Option<String>,
}

impl JsResource {
    /// An externally fetched script.
    pub fn external(load_time: JsLoadTime, src: String) -> (r: JsResource)
        ensures
            r.load_time == load_time,
            r.content_type == JsContentType::External,
            r.module_type is None,
            r.spa_preserve == false,
            r.src == Some(src),
            r.script is None,
    {
        JsResource {
            load_time,
            content_type: JsContentType::External,
            module_type: None,
            spa_preserve: false,
            src: Some(src),
            script: None,
        }
    }

    /// An inlined script.
    pub fn inline(load_time: JsLoadTime, script: String) -> (r: JsResource)
        ensures
            r.load_time == load_time,
            r.content_type == JsContentType::Inline,
            r.module_type is None,
            r.spa_preserve == false,
            r.src is None,
            r.script == Some(script),
    {
        JsResource {
            load_time,
            content_type: JsContentType::Inline,
            module_type: None,
            spa_preserve: false,
            src: None,
            script: Some(script),
        }
    }
}

/// One style resource a page pulls in.
#[derive(Debug, Clone)]
pub struct CssResource {
    pub content: String,
    pub inline: bool,
    pub spa_preserve: bool,
}

/// The static resources a component set contributes.
#[derive(Debug, Clone)]
pub struct ComponentResources {
    pub css: Vec<CssResource>,
    pub js: Vec<JsResource>,
    pub additional_head: Vec<String>,
}

impl Default for ComponentResources {
    /// No contributed resources.
    fn default() -> (r: ComponentResources)
        ensures
            r.css@.len() == 0,
            r.js@.len() == 0,
            r.additional_head@.len() == 0,
    {
        ComponentResources { css: Vec::new(), js: Vec::new(), additional_head: Vec::new() }
    }
}

/// Plugin-contributed configuration.
#[derive(Debug, Clone)]
pub struct PluginConfig {
    pub resources: ComponentResources,
}

impl Default for PluginConfig {
    /// No plugin resources.
    fn default() -> (r: PluginConfig)
        ensures
            r.resources.css@.len() == 0,
            r.resources.js@.len() == 0,
            r.resources.additional_head@.len() == 0,
    {
        PluginConfig { resources: ComponentResources::default() }
    }
}

impl PluginConfig {
    /// Combine plugin-provided static assets with the core bundles for a
    /// page at the given base directory.
    pub fn page_resources(&self, base_dir: &str) -> (r: ComponentResources)
        ensures
            page_resources_ok(base_dir@, self.resources, r),
    {
        page_resources(base_dir, &self.resources)
    }
}

/// The whole site configuration.
#[derive(Debug, Clone)]
pub struct SiteConfig {
    pub configuration: GlobalConfiguration,
    pub layout: LayoutConfig,
    pub plugins: PluginConfig,
    pub server: ServerConfig,
    pub paths: PathsConfig,
}

impl Default for SiteConfig {
    /// The compiled-in site: default server, paths, layout and plugins, the
    /// standard ignore patterns, and the stock theme.
    fn default() -> (r: SiteConfig)
        ensures
            r.configuration.page_title@ == "Moss"@,
            r.configuration.tagline is None,
            r.configuration.page_title_suffix@.len() == 0,
            r.configuration.enable_spa,
            r.configuration.enable_popovers,
            r.configuration.locale@ == "en-US"@,
            r.configuration.base_url is None,
            r.configuration.ignore_patterns.deep_view() == seq![
                "private"@,
                "templates"@,
                ".obsidian"@,
            ],
            r.configuration.default_date_type == DefaultDateType::Modified,
            r.configuration.theme.font_origin@ == "googleFonts"@,
            r.configuration.theme.cdn_caching,
            r.configuration.theme.typography.header@ == "Schibsted Grotesk"@,
            r.configuration.theme.typography.body@ == "Source Sans Pro"@,
            r.configuration.theme.typography.code@ == "IBM Plex Mono"@,
            r.paths.content_root@ == "../content"@,
            r.paths.cache_root@ == "../.build"@,
            r.server.port == 40075,
    {
        let mut ignore: Vec<String> = Vec::new();
        ignore.push(String::from_str("private"));
        ignore.push(String::from_str("templates"));
        ignore.push(String::from_str(".obsidian"));
        proof {
            assert(ignore.deep_view() =~~= seq!["private"@, "templates"@, ".obsidian"@]);
        }
        SiteConfig {
            configuration: GlobalConfiguration {
                page_title: String::from_str("Moss"),
                tagline: None,
                page_title_suffix: String::new(),
                enable_spa: true,
                enable_popovers: true,
                locale: String::from_str("en-US"),
                base_url: None,
                ignore_patterns: ignore,
                default_date_type: DefaultDateType::Modified,
                theme: ThemeConfig {
                    font_origin: String::from_str("googleFonts"),
                    cdn_caching: true,
                    typography: ThemeFonts {
                        header: String::from_str("Schibsted Grotesk"),
                        body: String::from_str("Source Sans Pro"),
                        code: String::from_str("IBM Plex Mono"),
                    },
                    colors: ThemeMode {
                        light_mode: ThemePalette {
                            light: String::from_str("#faf8f8"),
                            lightgray: String::from_str("#e5e5e5"),
                            gray: String::from_str("#b8b8b8"),
                            darkgray: String::from_str("#4e4e4e"),
                            dark: String::from_str("#2b2b2b"),
                            secondary: String::from_str("#284b63"),
                            tertiary: String::from_str("#84a59d"),
                            highlight: String::from_str("rgba(143, 159, 169, 0.15)"),
                            text_highlight: String::from_str("#fff23688"),
                        },
                        dark_mode: ThemePalette {
                            light: String::from_str("#161618"),
                            lightgray: String::from_str("#393639"),
                            gray: String::from_str("#646464"),
                            darkgray: String::from_str("#d4d4d4"),
                            dark: String::from_str("#ebebec"),
                            secondary: String::from_str("#7b97aa"),
                            tertiary: String::from_str("#84a59d"),
                            highlight: String::from_str("rgba(143, 159, 169, 0.15)"),
                            text_highlight: String::from_str("#b3aa0288"),
                        },
                    },
                },
            },
            layout: LayoutConfig::default(),
            plugins: PluginConfig::default(),
            server: ServerConfig::default(),
            paths: PathsConfig::default(),
        }
    }
}

/// A named configuration file source, resolved and read by the caller.
#[derive(Debug, Clone)]
pub struct YamlFileSource {
    pub path: String,
}

impl YamlFileSource {
    /// A source reading the file at `path`.
    pub fn new(path: String) -> (r: YamlFileSource)
        ensures
            r.path == path,
    {
        YamlFileSource { path }
    }
}

/// The Google Fonts stylesheet URL for a theme's typography.
pub open spec fn spec_google_font_href(theme: ThemeConfig) -> Seq<char> {
    "https://fonts.googleapis.com/css2?family="@ + theme.typography.code@ + "\n  &family="@
        + theme.typography.header@ + ":wght@400;700&family="@ + theme.typography.body@
        + ":ital,wght@0,400;0,600;1,400;1,600&display=swap"@
}

/// The Google Fonts stylesheet URL for a theme's typography.
pub fn google_font_href(theme: &ThemeConfig) -> (r: String)
    ensures
        r@ == spec_google_font_href(*theme),
{
    let mut out: Vec<char> = Vec::new();
    push_str_chars(&mut out, "https://fonts.googleapis.com/css2?family=");
    push_str_chars(&mut out, theme.typography.code.as_str());
    push_str_chars(&mut out, "\n  &family=");
    push_str_chars(&mut out, theme.typography.header.as_str());
    push_str_chars(&mut out, ":wght@400;700&family=");
    push_str_chars(&mut out, theme.typography.body.as_str());
    push_str_chars(&mut out, ":ital,wght@0,400;0,600;1,400;1,600&display=swap");
    to_string(&out)
}

/// All trailing `/` characters removed.
pub open spec fn drop_trailing_slashes(s: Seq<char>) -> Seq<char>
    decreases s.len(),
{
    if s.len() > 0 && s.last() == '/' {
        drop_trailing_slashes(s.drop_last())
    } else {
        s
    }
}

/// All leading `/` characters removed.
pub open spec fn drop_leading_slashes(s: Seq<char>) -> Seq<char>
    decreases s.len(),
{
    if s.len() > 0 && s[0] == '/' {
        drop_leading_slashes(s.drop_first())
    } else {
        s
    }
}

/// Two path segments joined with one `/`: an empty or `.` base yields the
/// tail; an empty (trimmed) tail yields the (trimmed) base.
pub open spec fn spec_join_segments(base: Seq<char>, tail: Seq<char>) -> Seq<char> {
    if base.len() == 0 || base == "."@ {
        tail
    } else {
        let b = drop_trailing_slashes(base);
        let t = drop_leading_slashes(tail);
        if t.len() == 0 {
            b
        } else {
            b + seq!['/'] + t
        }
    }
}

/// Join two path segments with a single separator.
#[verifier::loop_isolation(false)]
pub fn join_segments(base: &str, tail: &str) -> (r: String)
    ensures
        r@ == spec_join_segments(base@, tail@),
{
    let b = to_chars(base);
    let t = to_chars(tail);
    proof {
        reveal_strlit(".");
    }
    let base_is_dot = b.len() == 1 && b[0] == '.';
    proof {
        if base_is_dot {
            assert(b@ =~= "."@);
        } else {
            assert(b@ != "."@);
        }
    }
    if b.len() == 0 || base_is_dot {
        let r = tail.to_owned();
        return r;
    }
    let mut hi = b.len();
    while hi > 0 && b[hi - 1] == '/'
        invariant
            hi <= b@.len(),
            forall|k: int| hi <= k < b@.len() ==> b@[k] == '/',
        decreases hi,
    {
        hi = hi - 1;
    }
    proof {
        lemma_drop_trailing(b@, hi as int);
    }
    let mut lo: usize = 0;
    let tn = t.len();
    while lo < tn && t[lo] == '/'
        invariant
            lo <= tn == t@.len(),
            forall|k: int| 0 <= k < lo ==> t@[k] == '/',
        decreases tn - lo,
    {
        lo = lo + 1;
    }
    proof {
        lemma_drop_leading(t@, lo as int);
    }
    let mut out: Vec<char> = Vec::new();
    let mut i: usize = 0;
    while i < hi
        invariant
            i <= hi <= b@.len(),
            out@ =~= b@.take(i as int),
        decreases hi - i,
    {
        out.push(b[i]);
        assert(out@ =~= b@.take(i + 1));
        i = i + 1;
    }
    assert(out@ =~= drop_trailing_slashes(b@));
    if lo == tn {
        return to_string(&out);
    }
    out.push('/');
    let mut j: usize = lo;
    let ghost mid = out@;
    while j < tn
        invariant
            lo <= j <= tn == t@.len(),
            out@ =~= mid + t@.subrange(lo as int, j as int),
        decreases tn - j,
    {
        out.push(t[j]);
        assert(out@ =~= mid + t@.subrange(lo as int, j + 1));
        j = j + 1;
    }
    assert(t@.subrange(lo as int, tn as int) =~= drop_leading_slashes(t@));
    to_string(&out)
}

/// Trailing-slash removal stops at the first non-slash from the end.
proof fn lemma_drop_trailing(s: Seq<char>, hi: int)
    requires
        0 <= hi <= s.len(),
        forall|k: int| hi <= k < s.len() ==> s[k] == '/',
        hi > 0 ==> s[hi - 1] != '/',
    ensures
        drop_trailing_slashes(s) =~= s.take(hi),
    decreases s.len(),
{
    if hi < s.len() {
        assert(s.last() == '/');
        assert forall|k: int| hi <= k < s.drop_last().len() implies s.drop_last()[k] == '/' by {
            assert(s[k] == '/');
        }
        lemma_drop_trailing(s.drop_last(), hi);
        assert(s.drop_last().take(hi) =~= s.take(hi));
    }
}

/// Leading-slash removal stops at the first non-slash.
proof fn lemma_drop_leading(s: Seq<char>, lo: int)
    requires
        0 <= lo <= s.len(),
        forall|k: int| 0 <= k < lo ==> s[k] == '/',
        lo < s.len() ==> s[lo] != '/',
    ensures
        drop_leading_slashes(s) =~= s.skip(lo),
    decreases s.len(),
{
    if lo > 0 {
        assert forall|k: int| 0 <= k < lo - 1 implies s.drop_first()[k] == '/' by {
            assert(s[k + 1] == '/');
        }
        lemma_drop_leading(s.drop_first(), lo - 1);
        assert(s.drop_first().skip(lo - 1) =~= s.skip(lo));
    } else {
        assert(s.skip(0) =~= s);
    }
}

/// The inline script that fetches the content index for a page at
/// `base_dir`.
pub open spec fn spec_content_index_script(base_dir: Seq<char>) -> Seq<char> {
    "const fetchData = fetch(\""@ + spec_join_segments(
        base_dir,
        "static/content-index.json"@,
    ) + "\").then(data => data.json())"@
}

/// Does `r` hold the per-page resource list built for `base_dir` over the
/// plugin-contributed `stat`: the core stylesheet, then the contributed
/// styles; the prescript, the content-index fetcher, the contributed
/// scripts, and the postscript module; and the contributed extra head
/// entries unchanged.
pub open spec fn page_resources_ok(
    base_dir: Seq<char>,
    stat: ComponentResources,
    r: ComponentResources,
) -> bool {
    &&& r.css@.len() == stat.css@.len() + 1
    &&& r.css@[0].content@ == spec_join_segments(base_dir, "index.css"@)
    &&& !r.css@[0].inline
    &&& !r.css@[0].spa_preserve
    &&& forall|i: int| 0 <= i < stat.css@.len() ==> r.css@[i + 1] == stat.css@[i]
    &&& r.js@.len() == stat.js@.len() + 3
    &&& r.js@[0].load_time == JsLoadTime::BeforeDomReady
    &&& r.js@[0].content_type == JsContentType::External
    &&& r.js@[0].src matches Some(s) && s@ == spec_join_segments(base_dir, "prescript.js"@)
    &&& r.js@[1].load_time == JsLoadTime::BeforeDomReady
    &&& r.js@[1].content_type == JsContentType::Inline
    &&& r.js@[1].spa_preserve
    &&& r.js@[1].script matches Some(s) && s@ == spec_content_index_script(base_dir)
    &&& forall|i: int| 0 <= i < stat.js@.len() ==> r.js@[i + 2] == stat.js@[i]
    &&& r.js@[r.js@.len() - 1].load_time == JsLoadTime::AfterDomReady
    &&& r.js@[r.js@.len() - 1].content_type == JsContentType::External
    &&& r.js@[r.js@.len() - 1].module_type matches Some(m) && m@ == "module"@
    &&& r.js@[r.js@.len() - 1].src matches Some(s) && s@ == spec_join_segments(
        base_dir,
        "postscript.js"@,
    )
    &&& r.additional_head@ == stat.additional_head@
}

/// Build the per-page resource list: the core bundles around the
/// plugin-contributed static resources.
pub fn page_resources(base_dir: &str, static_resources: &ComponentResources) -> (r:
    ComponentResources)
    ensures
        page_resources_ok(base_dir@, *static_resources, r),
{
    let content_index_path = join_segments(base_dir, "static/content-index.json");
    let mut script: Vec<char> = Vec::new();
    push_str_chars(&mut script, "const fetchData = fetch(\"");
    push_str_chars(&mut script, content_index_path.as_str());
    push_str_chars(&mut script, "\").then(data => data.json())");
    let content_index_script = to_string(&script);
    let mut css: Vec<CssResource> = Vec::new();
    css.push(
        CssResource {
            content: join_segments(base_dir, "index.css"),
            inline: false,
            spa_preserve: false,
        },
    );
    let mut i: usize = 0;
    let cn = static_resources.css.len();
    while i < cn
        invariant
            i <= cn == static_resources.css@.len(),
            css@.len() == i + 1,
            css@[0].content@ == spec_join_segments(base_dir@, "index.css"@),
            !css@[0].inline,
            !css@[0].spa_preserve,
            forall|k: int| 0 <= k < i ==> css@[k + 1] == static_resources.css@[k],
        decreases cn - i,
    {
        css.push(clone_css(&static_resources.css[i]));
        i = i + 1;
    }
    let mut js: Vec<JsResource> = Vec::new();
    js.push(JsResource::external(JsLoadTime::BeforeDomReady, join_segments(base_dir,
        "prescript.js")));
    js.push(
        JsResource {
            load_time: JsLoadTime::BeforeDomReady,
            content_type: JsContentType::Inline,
            module_type: None,
            spa_preserve: true,
            src: None,
            script: Some(content_index_script),
        },
    );
    let mut j: usize = 0;
    let jn = static_resources.js.len();
    while j < jn
        invariant
            j <= jn == static_resources.js@.len(),
            js@.len() == j + 2,
            js@[0].load_time == JsLoadTime::BeforeDomReady,
            js@[0].content_type == JsContentType::External,
            js@[0].src matches Some(s) && s@ == spec_join_segments(base_dir@, "prescript.js"@),
            js@[1].load_time == JsLoadTime::BeforeDomReady,
            js@[1].content_type == JsContentType::Inline,
            js@[1].spa_preserve,
            js@[1].script matches Some(s) && s@ == spec_content_index_script(base_dir@),
            forall|k: int| 0 <= k < j ==> js@[k + 2] == static_resources.js@[k],
        decreases jn - j,
    {
        js.push(clone_js(&static_resources.js[j]));
        j = j + 1;
    }
    let mut postscript = JsResource::external(JsLoadTime::AfterDomReady, join_segments(base_dir,
        "postscript.js"));
    postscript.module_type = Some(String::from_str("module"));
    js.push(postscript);
    let head = crate::fm::clone_string_vec(&static_resources.additional_head);
    let r = ComponentResources { css, js, additional_head: head };
    proof {
        assert(r.additional_head@ =~= static_resources.additional_head@);
    }
    r
}

/// A field-for-field copy of a style resource.
fn clone_css(c: &CssResource) -> (r: CssResource)
    ensures
        r == *c,
{
    CssResource { content: c.content.clone(), inline: c.inline, spa_preserve: c.spa_preserve }
}

/// A field-for-field copy of a script resource.
fn clone_js(c: &JsResource) -> (r: JsResource)
    ensures
        r == *c,
{
    JsResource {
        load_time: c.load_time,
        content_type: c.content_type,
        module_type: match &c.module_type {
            Some(m) => Some(m.clone()),
            None => None,
        },
        spa_preserve: c.spa_preserve,
        src: match &c.src {
            Some(s) => Some(s.clone()),
            None => None,
        },
        script: match &c.script {
            Some(s) => Some(s.clone()),
            None => None,
        },
    }
}

/// The canonical serialized form of a theme, hashed for cache busting. Each
/// field appears in a fixed order with a separator.
pub open spec fn spec_theme_canonical(t: ThemeConfig) -> Seq<char> {
    t.font_origin@ + "|"@ + (if t.cdn_caching {
        "1"@
    } else {
        "0"@
    }) + "|"@ + t.typography.header@ + "|"@ + t.typography.body@ + "|"@ + t.typography.code@
        + "|"@ + spec_palette_canonical(t.colors.light_mode) + "|"@ + spec_palette_canonical(
        t.colors.dark_mode,
    )
}

/// The canonical serialized form of one palette.
pub open spec fn spec_palette_canonical(p: ThemePalette) -> Seq<char> {
    p.light@ + "|"@ + p.lightgray@ + "|"@ + p.gray@ + "|"@ + p.darkgray@ + "|"@ + p.dark@ + "|"@
        + p.secondary@ + "|"@ + p.tertiary@ + "|"@ + p.highlight@ + "|"@ + p.text_highlight@
}

/// Append the canonical form of a palette.
fn push_palette(out: &mut Vec<char>, p: &ThemePalette)
    ensures
        final(out)@ =~= old(out)@ + spec_palette_canonical(*p),
{
    push_str_chars(out, p.light.as_str());
    push_str_chars(out, "|");
    push_str_chars(out, p.lightgray.as_str());
    push_str_chars(out, "|");
    push_str_chars(out, p.gray.as_str());
    push_str_chars(out, "|");
    push_str_chars(out, p.darkgray.as_str());
    push_str_chars(out, "|");
    push_str_chars(out, p.dark.as_str());
    push_str_chars(out, "|");
    push_str_chars(out, p.secondary.as_str());
    push_str_chars(out, "|");
    push_str_chars(out, p.tertiary.as_str());
    push_str_chars(out, "|");
    push_str_chars(out, p.highlight.as_str());
    push_str_chars(out, "|");
    push_str_chars(out, p.text_highlight.as_str());
}

/// A stable hash of the active theme, used for cache busting: the hex
/// SHA-256 digest of the theme's canonical serialized form.
pub fn theme_hash(theme: &ThemeConfig) -> (r: String)
    ensures
        r@ == spec_to_hex(
            sha256_of(vstd::utf8::encode_utf8(spec_theme_canonical(*theme))),
        ),
{
    let mut out: Vec<char> = Vec::new();
    push_str_chars(&mut out, theme.font_origin.as_str());
    push_str_chars(&mut out, "|");
    if theme.cdn_caching {
        push_str_chars(&mut out, "1");
    } else {
        push_str_chars(&mut out, "0");
    }
    push_str_chars(&mut out, "|");
    push_str_chars(&mut out, theme.typography.header.as_str());
    push_str_chars(&mut out, "|");
    push_str_chars(&mut out, theme.typography.body.as_str());
    push_str_chars(&mut out, "|");
    push_str_chars(&mut out, theme.typography.code.as_str());
    push_str_chars(&mut out, "|");
    push_palette(&mut out, &theme.colors.light_mode);
    push_str_chars(&mut out, "|");
    push_palette(&mut out, &theme.colors.dark_mode);
    let canonical = to_string(&out);
    let bytes = vstd::slice::slice_to_vec(canonical.as_str().as_bytes());
    proof {
        assert(out@ =~= spec_theme_canonical(*theme));
    }
    sha256_hex(&bytes)
}

/// Decide whether a hash marker file must be rewritten: it must when the
/// stored text, trimmed, differs from the fresh hash.
#[verifier::loop_isolation(false)]
pub fn hash_marker_needs_write(existing: Option<&str>, hash: &str) -> (r: bool)
    ensures
        r == match existing {
            Some(e) => spec_trim(e@) != hash@,
            None => true,
        },
{
    match existing {
        Some(e) => {
            let ec = to_chars(e);
            let et = trim(&ec);
            let hc = to_chars(hash);
            let mut i: usize = 0;
            let n = hc.len();
            if et.len() != n {
                proof {
                    assert(et@.len() != hc@.len());
                    assert(spec_trim(e@).len() != hash@.len());
                    assert(spec_trim(e@) != hash@);
                }
                return true;
            }
            while i < n
                invariant
                    n == hc@.len() == et@.len(),
                    et@ == spec_trim(e@),
                    hc@ == hash@,
                    i <= n,
                    forall|k: int| 0 <= k < i ==> et@[k] == hc@[k],
                decreases n - i,
            {
                if et[i] != hc[i] {
                    proof {
                        assert(spec_trim(e@)[i as int] != hash@[i as int]);
                        assert(spec_trim(e@) != hash@);
                    }
                    return true;
                }
                i = i + 1;
            }
            assert(et@ =~= hc@);
            false
        },
        None => true,
    }
}

} // verus!
