//! `_config.toml` as the library reads it: kebab-case keys, unknown keys
//! refused, every value checked. Reading the file and the TOML grammar stay
//! outside; what a parsed document means, and why one is refused, is here.
use vstd::prelude::*;

use crate::documents::{doc_tree, entry_trees, item_trees, lemma_entry_trees, lemma_item_trees, DocTree, DocValue};
use crate::json_text::{pretty_json, pretty_tree};
use crate::plan::{versioning_word, Package, ResolvesDependenciesAt, Versioning};
use crate::text::{
    begins_str, chars_of, contains, decimal, decimal_of, has_str, is, push_all, push_str, same, split,
    split_on, starts_with, string_of, strip_prefix, trim, trimmed, Text,
};
use crate::versions::{parse_version, requirement_parses, semver_parse, semver_req_parses, version_text, SemVer, VersionView};

verus! {

broadcast use crate::views::lemma_text_deep_view;

/// Opt-in for versioning and tagging packages that are not
/// registry-publishable. The axes are independent.
#[derive(Clone, Copy, Debug, PartialEq, Eq)]
pub struct PrivatePackages {
    version: bool,
    tag: bool,
}

impl View for PrivatePackages {
    type V = (bool, bool);

    closed spec fn view(&self) -> (bool, bool) {
        (self.version, self.tag)
    }
}

impl PrivatePackages {
    pub fn new(version: bool, tag: bool) -> (p: PrivatePackages)
        ensures
            p@ == (version, tag),
    {
        PrivatePackages { version, tag }
    }

    pub fn version(&self) -> (b: bool)
        ensures
            b == self@.0,
    {
        self.version
    }

    pub fn tag(&self) -> (b: bool)
        ensures
            b == self@.1,
    {
        self.tag
    }
}

impl PrivatePackages {
    /// Whether the setting says anything an absent table does not.
    pub fn any(&self) -> (b: bool)
        ensures
            b == (self@.0 || self@.1),
    {
        self.version || self.tag
    }

    /// Each axis on when either side turns it on.
    pub fn union(self, other: PrivatePackages) -> (p: PrivatePackages)
        ensures
            p@ == (self@.0 || other@.0, self@.1 || other@.1),
    {
        PrivatePackages { version: self.version || other.version, tag: self.tag || other.tag }
    }
}

impl Default for PrivatePackages {
    fn default() -> (p: PrivatePackages)
        ensures
            p@ == (false, false),
    {
        PrivatePackages { version: false, tag: false }
    }
}

/// Where pull-request status is presented. The exit-code gate is not
/// configurable; `Off` silences both the comment and the summary.
#[derive(Clone, Copy, Debug, PartialEq, Eq, Structural)]
pub enum PrStatus {
    Comment,
    Summary,
    Both,
    Off,
}

/// How each status is spelled in the config file.
pub open spec fn pr_status_word(s: PrStatus) -> Seq<char> {
    match s {
        PrStatus::Comment => "comment"@,
        PrStatus::Summary => "summary"@,
        PrStatus::Both => "both"@,
        PrStatus::Off => "none"@,
    }
}

impl PrStatus {
    /// How the status is spelled in `_config.toml`.
    pub fn word(self) -> (w: &'static str)
        ensures
            w@ == pr_status_word(self),
    {
        match self {
            PrStatus::Comment => "comment",
            PrStatus::Summary => "summary",
            PrStatus::Both => "both",
            PrStatus::Off => "none",
        }
    }
}

impl Default for PrStatus {
    fn default() -> (s: PrStatus)
        ensures
            s == PrStatus::Both,
    {
        PrStatus::Both
    }
}

/// Wire formats `version` can rewrite at a declared key.
#[derive(Clone, Copy, Debug, PartialEq, Eq, Structural)]
pub enum ExtraFileFormat {
    Json,
}

/// A declared version write outside the package manifest.
#[derive(Clone, Debug, PartialEq, Eq)]
pub struct ExtraFile {
    path: String,
    format: ExtraFileFormat,
    key: String,
}

/// An extra file as the contracts see it: path, format, key.
pub type ExtraFileView = (Seq<char>, ExtraFileFormat, Seq<char>);

impl View for ExtraFile {
    type V = ExtraFileView;

    closed spec fn view(&self) -> ExtraFileView {
        (self.path@, self.format, self.key@)
    }
}

impl ExtraFile {
    pub fn path(&self) -> (p: &str)
        ensures
            p@ == self@.0,
    {
        self.path.as_str()
    }

    pub fn format(&self) -> (f: ExtraFileFormat)
        ensures
            f == self@.1,
    {
        self.format
    }

    pub fn key(&self) -> (k: &str)
        ensures
            k@ == self@.2,
    {
        self.key.as_str()
    }
}

/// Per-package overrides, keyed by the name the manifest declares.
#[derive(Clone, Debug, PartialEq, Eq)]
pub struct PackageConfig {
    versioning: Option<Versioning>,
    resolves_dependencies_at: Option<ResolvesDependenciesAt>,
    extra_files: Vec<ExtraFile>,
    /// Stored for a later publish slot; never executed.
    publish_command: Option<String>,
}

/// A package's overrides as the contracts see them.
pub type PackageConfigView = (Option<Versioning>, Option<ResolvesDependenciesAt>, Seq<ExtraFileView>, Option<Seq<char>>);

/// An optional string as an optional character run.
pub open spec fn opt_view(o: Option<String>) -> Option<Seq<char>> {
    match o {
        Some(s) => Some(s@),
        None => None,
    }
}

pub open spec fn extra_files_view(v: Seq<ExtraFile>) -> Seq<ExtraFileView> {
    v.map_values(|e: ExtraFile| e@)
}

impl View for PackageConfig {
    type V = PackageConfigView;

    closed spec fn view(&self) -> PackageConfigView {
        (self.versioning, self.resolves_dependencies_at, extra_files_view(self.extra_files@), opt_view(self.publish_command))
    }
}

impl PackageConfig {
    pub fn versioning(&self) -> (v: Option<Versioning>)
        ensures
            v == self@.0,
    {
        self.versioning
    }

    pub fn resolves_dependencies_at(&self) -> (r: Option<ResolvesDependenciesAt>)
        ensures
            r == self@.1,
    {
        self.resolves_dependencies_at
    }

    pub fn extra_files(&self) -> (e: &[ExtraFile])
        ensures
            extra_files_view(e@) == self@.2,
    {
        self.extra_files.as_slice()
    }

    pub fn publish_command(&self) -> (c: Option<&str>)
        ensures
            match self@.3 {
                Some(s) => c matches Some(x) && x@ == s,
                None => c is None,
            },
    {
        match &self.publish_command {
            Some(s) => Some(s.as_str()),
            None => None,
        }
    }
}

impl Default for PackageConfig {
    fn default() -> (p: PackageConfig)
        ensures
            p@ == (None::<Versioning>, None::<ResolvesDependenciesAt>, Seq::<ExtraFileView>::empty(), None::<Seq<char>>),
    {
        let p = PackageConfig { versioning: None, resolves_dependencies_at: None, extra_files: Vec::new(), publish_command: None };
        assert(extra_files_view(p.extra_files@) =~= Seq::<ExtraFileView>::empty());
        p
    }
}

/// Where a template body comes from: written inline, or a repository file.
#[derive(Clone, Debug, PartialEq, Eq)]
pub enum TemplateSource {
    Inline(String),
    File(String),
}

/// A template source as `(is a file, text)`.
pub open spec fn template_view(t: TemplateSource) -> (bool, Seq<char>) {
    match t {
        TemplateSource::Inline(s) => (false, s@),
        TemplateSource::File(s) => (true, s@),
    }
}

pub open spec fn opt_template_view(t: Option<TemplateSource>) -> Option<(bool, Seq<char>)> {
    match t {
        Some(s) => Some(template_view(s)),
        None => None,
    }
}

pub open spec fn opt_ref_template_view(t: Option<&TemplateSource>) -> Option<(bool, Seq<char>)> {
    match t {
        Some(s) => Some(template_view(*s)),
        None => None,
    }
}

// ---------------------------------------------------------------------------
// The configuration
// ---------------------------------------------------------------------------

/// A configuration as the contracts see it.
pub struct ConfigView {
    pub tool_version: Option<VersionView>,
    pub change_files: bool,
    pub conventional_commits: bool,
    pub versioning: Versioning,
    pub pr_status: PrStatus,
    pub tag_format: Option<(bool, Seq<char>)>,
    pub commit_message: Option<(bool, Seq<char>)>,
    pub title: Option<(bool, Seq<char>)>,
    pub template: Option<(bool, Seq<char>)>,
    pub private_packages: (bool, bool),
    pub included: Seq<Seq<char>>,
    pub exclude: Seq<Seq<char>>,
    pub packages: Seq<(Seq<char>, PackageConfigView)>,
}

/// A read `_config.toml`.
#[derive(Debug)]
pub struct OakumConfig {
    tool_version: Option<SemVer>,
    change_files: bool,
    conventional_commits: bool,
    versioning: Versioning,
    pr_status: PrStatus,
    tag_format: Option<TemplateSource>,
    commit_message: Option<TemplateSource>,
    title: Option<TemplateSource>,
    template: Option<TemplateSource>,
    private_packages: PrivatePackages,
    included: Vec<String>,
    exclude: Vec<String>,
    packages: Vec<(String, PackageConfig)>,
}

pub open spec fn opt_version_view(v: Option<SemVer>) -> Option<VersionView> {
    match v {
        Some(x) => Some(x@),
        None => None,
    }
}

pub open spec fn packages_view(ps: Seq<(String, PackageConfig)>) -> Seq<(Seq<char>, PackageConfigView)> {
    ps.map_values(|p: (String, PackageConfig)| (p.0@, p.1@))
}

impl View for OakumConfig {
    type V = ConfigView;

    closed spec fn view(&self) -> ConfigView {
        ConfigView {
            tool_version: opt_version_view(self.tool_version),
            change_files: self.change_files,
            conventional_commits: self.conventional_commits,
            versioning: self.versioning,
            pr_status: self.pr_status,
            tag_format: opt_template_view(self.tag_format),
            commit_message: opt_template_view(self.commit_message),
            title: opt_template_view(self.title),
            template: opt_template_view(self.template),
            private_packages: self.private_packages@,
            included: self.included.deep_view(),
            exclude: self.exclude.deep_view(),
            packages: packages_view(self.packages@),
        }
    }
}

/// The first override table named `name`.
pub open spec fn package_entry(ps: Seq<(Seq<char>, PackageConfigView)>, name: Seq<char>) -> Option<PackageConfigView>
    decreases ps.len(),
{
    if ps.len() == 0 {
        None
    } else if ps[0].0 == name {
        Some(ps[0].1)
    } else {
        package_entry(ps.drop_first(), name)
    }
}

/// Include (empty means all), then exclude.
pub open spec fn is_selected(c: ConfigView, name: Seq<char>) -> bool {
    (c.included.len() == 0 || c.included.contains(name)) && !c.exclude.contains(name)
}

/// The first include-then-exclude name `known` lacks.
pub open spec fn first_unknown(names: Seq<Seq<char>>, known: Seq<Seq<char>>) -> Option<Seq<char>>
    decreases names.len(),
{
    if names.len() == 0 {
        None
    } else if !known.contains(names[0]) {
        Some(names[0])
    } else {
        first_unknown(names.drop_first(), known)
    }
}

/// Whether `names` holds `name`, by a scan.
fn holds(names: &Vec<String>, name: &str) -> (b: bool)
    ensures
        b == names.deep_view().contains(name@),
{
    let n = chars_of(name);
    let mut i: usize = 0;
    while i < names.len()
        invariant
            n@ == name@,
            i <= names@.len(),
            forall|k: int| 0 <= k < i ==> names.deep_view()[k] != name@,
        decreases names@.len() - i,
    {
        if same(&chars_of(names[i].as_str()), &n) {
            assert(names.deep_view()[i as int] == name@);
            return true;
        }
        i = i + 1;
    }
    false
}

/// A set template under its key, or nothing.
pub open spec fn keyed_template(key: Seq<char>, t: Option<(bool, Seq<char>)>) -> Seq<(Seq<char>, (bool, Seq<char>))> {
    match t {
        Some(x) => seq![(key, x)],
        None => Seq::empty(),
    }
}

/// The templates a configuration sets, under their keys.
pub open spec fn set_templates(c: ConfigView) -> Seq<(Seq<char>, (bool, Seq<char>))> {
    keyed_template("tag-format"@, c.tag_format) + keyed_template("commit-message"@, c.commit_message)
        + keyed_template("title"@, c.title) + keyed_template("template"@, c.template)
}

/// The configuration with both intent mechanisms on and every other key
/// at its documented default, pinned to no version.
pub open spec fn defaults_view() -> ConfigView {
    ConfigView {
        tool_version: None,
        change_files: true,
        conventional_commits: true,
        versioning: Versioning::ZeroMajor,
        pr_status: PrStatus::Both,
        tag_format: None,
        commit_message: None,
        title: None,
        template: None,
        private_packages: (false, false),
        included: Seq::empty(),
        exclude: Seq::empty(),
        packages: Seq::empty(),
    }
}

impl OakumConfig {
    /// Both intent mechanisms on; every other key at its documented default.
    pub fn defaults() -> (c: OakumConfig)
        ensures
            c@ == defaults_view(),
    {
        let c = OakumConfig {
            tool_version: None,
            change_files: true,
            conventional_commits: true,
            versioning: Versioning::ZeroMajor,
            pr_status: PrStatus::Both,
            tag_format: None,
            commit_message: None,
            title: None,
            template: None,
            private_packages: PrivatePackages::default(),
            included: Vec::new(),
            exclude: Vec::new(),
            packages: Vec::new(),
        };
        assert(c.included.deep_view() =~= Seq::<Seq<char>>::empty());
        assert(c.exclude.deep_view() =~= Seq::<Seq<char>>::empty());
        assert(packages_view(c.packages@) =~= Seq::<(Seq<char>, PackageConfigView)>::empty());
        c
    }

    pub fn tool_version(&self) -> (v: Option<&SemVer>)
        ensures
            match self@.tool_version {
                Some(x) => v matches Some(y) && y@ == x,
                None => v is None,
            },
    {
        match &self.tool_version {
            Some(v) => Some(v),
            None => None,
        }
    }

    pub fn change_files(&self) -> (b: bool)
        ensures
            b == self@.change_files,
    {
        self.change_files
    }

    pub fn conventional_commits(&self) -> (b: bool)
        ensures
            b == self@.conventional_commits,
    {
        self.conventional_commits
    }

    pub fn versioning(&self) -> (v: Versioning)
        ensures
            v == self@.versioning,
    {
        self.versioning
    }

    pub fn pr_status(&self) -> (s: PrStatus)
        ensures
            s == self@.pr_status,
    {
        self.pr_status
    }

    pub fn tag_format(&self) -> (t: Option<&TemplateSource>)
        ensures
            opt_ref_template_view(t) == self@.tag_format,
    {
        self.tag_format.as_ref()
    }

    pub fn commit_message(&self) -> (t: Option<&TemplateSource>)
        ensures
            opt_ref_template_view(t) == self@.commit_message,
    {
        self.commit_message.as_ref()
    }

    pub fn title(&self) -> (t: Option<&TemplateSource>)
        ensures
            opt_ref_template_view(t) == self@.title,
    {
        self.title.as_ref()
    }

    pub fn template(&self) -> (t: Option<&TemplateSource>)
        ensures
            opt_ref_template_view(t) == self@.template,
    {
        self.template.as_ref()
    }

    /// Every template the config sets, under its key, in the order the
    /// schema lists them.
    pub fn template_sources(&self) -> (v: Vec<(&'static str, &TemplateSource)>)
        ensures
            v@.map_values(|e: (&'static str, &TemplateSource)| (e.0@, template_view(*e.1))) == set_templates(self@),
    {
        let mut v: Vec<(&'static str, &TemplateSource)> = Vec::new();
        let ghost f = |e: (&'static str, &TemplateSource)| (e.0@, template_view(*e.1));
        if let Some(t) = self.tag_format.as_ref() {
            v.push(("tag-format", t));
        }
        let ghost a = v@.map_values(f);
        assert(a =~= keyed_template("tag-format"@, self@.tag_format));
        if let Some(t) = self.commit_message.as_ref() {
            v.push(("commit-message", t));
        }
        let ghost b = v@.map_values(f);
        assert(b =~= a + keyed_template("commit-message"@, self@.commit_message));
        if let Some(t) = self.title.as_ref() {
            v.push(("title", t));
        }
        let ghost c = v@.map_values(f);
        assert(c =~= b + keyed_template("title"@, self@.title));
        if let Some(t) = self.template.as_ref() {
            v.push(("template", t));
        }
        assert(v@.map_values(f) =~= c + keyed_template("template"@, self@.template));
        v
    }

    pub fn packages(&self) -> (p: &[(String, PackageConfig)])
        ensures
            packages_view(p@) == self@.packages,
    {
        self.packages.as_slice()
    }

    pub fn private_packages(&self) -> (p: PrivatePackages)
        ensures
            p@ == self@.private_packages,
    {
        self.private_packages
    }

    pub fn included(&self) -> (v: &[String])
        ensures
            v@.map_values(|s: String| s@) == self@.included,
    {
        let r = self.included.as_slice();
        assert(r@.map_values(|s: String| s@) =~= self.included.deep_view());
        r
    }

    pub fn exclude(&self) -> (v: &[String])
        ensures
            v@.map_values(|s: String| s@) == self@.exclude,
    {
        let r = self.exclude.as_slice();
        assert(r@.map_values(|s: String| s@) =~= self.exclude.deep_view());
        r
    }

    /// The index of the first override table named `name`.
    fn package_index(&self, name: &str) -> (r: Option<usize>)
        ensures
            match package_entry(self@.packages, name@) {
                Some(p) => r matches Some(i) && i < self.packages@.len() && self.packages@[i as int].1@ == p,
                None => r is None,
            },
    {
        let ghost ps = self@.packages;
        let n = chars_of(name);
        let mut i: usize = 0;
        assert(ps.skip(0) =~= ps);
        while i < self.packages.len()
            invariant
                ps == packages_view(self.packages@),
                n@ == name@,
                i <= ps.len(),
                package_entry(ps, name@) == package_entry(ps.skip(i as int), name@),
            decreases ps.len() - i,
        {
            assert(ps.skip(i as int)[0] == ps[i as int]);
            assert(ps.skip(i as int).drop_first() == ps.skip(i + 1));
            if same(&chars_of(self.packages[i].0.as_str()), &n) {
                return Some(i);
            }
            i = i + 1;
        }
        assert(ps.skip(i as int).len() == 0);
        None
    }

    /// The package's own `versioning` when it sets one, else the root's.
    pub fn versioning_for(&self, package: &str) -> (v: Versioning)
        ensures
            v == (match package_entry(self@.packages, package@) {
                Some(p) => match p.0 {
                    Some(x) => x,
                    None => self@.versioning,
                },
                None => self@.versioning,
            }),
    {
        match self.package_index(package) {
            Some(i) => match self.packages[i].1.versioning {
                Some(v) => v,
                None => self.versioning,
            },
            None => self.versioning,
        }
    }

    /// The package's declared dependency resolution, if it declares one.
    pub fn resolves_dependencies_at(&self, package: &str) -> (r: Option<ResolvesDependenciesAt>)
        ensures
            r == (match package_entry(self@.packages, package@) {
                Some(p) => p.1,
                None => None,
            }),
    {
        match self.package_index(package) {
            Some(i) => self.packages[i].1.resolves_dependencies_at,
            None => None,
        }
    }

    /// The package's declared extra files; none when it has no table.
    pub fn extra_files_for(&self, package: &str) -> (e: &[ExtraFile])
        ensures
            extra_files_view(e@) == (match package_entry(self@.packages, package@) {
                Some(p) => p.2,
                None => Seq::empty(),
            }),
    {
        match self.package_index(package) {
            Some(i) => self.packages[i].1.extra_files(),
            None => {
                let e: &[ExtraFile] = &[];
                assert(extra_files_view(e@) =~= Seq::<ExtraFileView>::empty());
                e
            },
        }
    }

    /// The package's stored publish command, if it has one.
    pub fn publish_command_for(&self, package: &str) -> (c: Option<&str>)
        ensures
            match package_entry(self@.packages, package@) {
                Some(p) => match p.3 {
                    Some(s) => c matches Some(x) && x@ == s,
                    None => c is None,
                },
                None => c is None,
            },
    {
        match self.package_index(package) {
            Some(i) => self.packages[i].1.publish_command(),
            None => None,
        }
    }

    /// Include (empty means all), then exclude.
    pub fn selected(&self, package_name: &str) -> (b: bool)
        ensures
            b == is_selected(self@, package_name@),
    {
        let chosen = self.included.len() == 0 || holds(&self.included, package_name);
        chosen && !holds(&self.exclude, package_name)
    }

    /// Selected, and publishable or `private-packages.version`.
    pub fn version_managed_name(&self, package_name: &str, publishable: bool) -> (b: bool)
        ensures
            b == (is_selected(self@, package_name@) && (publishable || self@.private_packages.0)),
    {
        self.selected(package_name) && (publishable || self.private_packages.version)
    }

    /// Selected, and publishable or `private-packages.tag`.
    pub fn tag_managed_name(&self, package_name: &str, publishable: bool) -> (b: bool)
        ensures
            b == (is_selected(self@, package_name@) && (publishable || self@.private_packages.1)),
    {
        self.selected(package_name) && (publishable || self.private_packages.tag)
    }

    /// [`Self::version_managed_name`] for a workspace member.
    pub fn version_managed(&self, package: &Package) -> (b: bool)
        ensures
            b == (is_selected(self@, package.id.name@) && (package.publishable || self@.private_packages.0)),
    {
        self.version_managed_name(package.id.name.as_str(), package.publishable)
    }

    /// [`Self::tag_managed_name`] for a workspace member.
    pub fn tag_managed(&self, package: &Package) -> (b: bool)
        ensures
            b == (is_selected(self@, package.id.name@) && (package.publishable || self@.private_packages.1)),
    {
        self.tag_managed_name(package.id.name.as_str(), package.publishable)
    }

    /// Every include and exclude name must be a discovered package; the
    /// first one that is not is refused.
    pub fn validate_selection_names(&self, known: &Vec<String>) -> (r: Result<(), ParseError>)
        ensures
            match first_unknown(self@.included + self@.exclude, known.deep_view()) {
                Some(n) => r matches Err(e) && e@ == (KindView::UnknownSelectionName(n), None::<(usize, usize)>),
                None => r is Ok,
            },
    {
        let ghost all = self@.included + self@.exclude;
        let mut i: usize = 0;
        assert(all.skip(0) =~= all);
        while i < self.included.len()
            invariant
                all == self@.included + self@.exclude,
                i <= self@.included.len(),
                first_unknown(all, known.deep_view()) == first_unknown(all.skip(i as int), known.deep_view()),
            decreases self@.included.len() - i,
        {
            assert(all.skip(i as int)[0] == self@.included[i as int]);
            assert(all.skip(i as int).drop_first() == all.skip(i + 1));
            if !holds(known, self.included[i].as_str()) {
                return Err(ParseError::new(ParseErrorKind::UnknownSelectionName(self.included[i].clone())));
            }
            i = i + 1;
        }
        let mut j: usize = 0;
        while j < self.exclude.len()
            invariant
                all == self@.included + self@.exclude,
                j <= self@.exclude.len(),
                first_unknown(all, known.deep_view()) == first_unknown(all.skip(self@.included.len() + j), known.deep_view()),
            decreases self@.exclude.len() - j,
        {
            assert(all.skip(self@.included.len() + j)[0] == self@.exclude[j as int]);
            assert(all.skip(self@.included.len() + j).drop_first() == all.skip(self@.included.len() + j + 1));
            if !holds(known, self.exclude[j].as_str()) {
                return Err(ParseError::new(ParseErrorKind::UnknownSelectionName(self.exclude[j].clone())));
            }
            j = j + 1;
        }
        assert(all.skip(all.len() as int).len() == 0);
        Ok(())
    }
}

// ---------------------------------------------------------------------------
// Errors
// ---------------------------------------------------------------------------

/// Why a configuration is refused.
#[derive(Clone, Debug)]
pub enum ParseErrorKind {
    BothIntentMechanismsDisabled,
    DuplicateKey,
    InvalidSyntax,
    InvalidToolVersion,
    InvalidValue,
    InvalidExtraFile(String),
    EmptySelectionName,
    EmptyPublishCommand,
    UnknownSelectionName(String),
    TemplateDoesNotExecute,
    MissingToolVersion,
    MissingField,
    ToolVersionRequirement,
    UnknownKey(Option<String>),
}

/// A refusal reason as the contracts see it.
pub enum KindView {
    BothIntentMechanismsDisabled,
    DuplicateKey,
    InvalidSyntax,
    InvalidToolVersion,
    InvalidValue,
    InvalidExtraFile(Seq<char>),
    EmptySelectionName,
    EmptyPublishCommand,
    UnknownSelectionName(Seq<char>),
    TemplateDoesNotExecute,
    MissingToolVersion,
    MissingField,
    ToolVersionRequirement,
    UnknownKey(Option<Seq<char>>),
}

impl View for ParseErrorKind {
    type V = KindView;

    open spec fn view(&self) -> KindView {
        match self {
            ParseErrorKind::BothIntentMechanismsDisabled => KindView::BothIntentMechanismsDisabled,
            ParseErrorKind::DuplicateKey => KindView::DuplicateKey,
            ParseErrorKind::InvalidSyntax => KindView::InvalidSyntax,
            ParseErrorKind::InvalidToolVersion => KindView::InvalidToolVersion,
            ParseErrorKind::InvalidValue => KindView::InvalidValue,
            ParseErrorKind::InvalidExtraFile(s) => KindView::InvalidExtraFile(s@),
            ParseErrorKind::EmptySelectionName => KindView::EmptySelectionName,
            ParseErrorKind::EmptyPublishCommand => KindView::EmptyPublishCommand,
            ParseErrorKind::UnknownSelectionName(s) => KindView::UnknownSelectionName(s@),
            ParseErrorKind::TemplateDoesNotExecute => KindView::TemplateDoesNotExecute,
            ParseErrorKind::MissingToolVersion => KindView::MissingToolVersion,
            ParseErrorKind::MissingField => KindView::MissingField,
            ParseErrorKind::ToolVersionRequirement => KindView::ToolVersionRequirement,
            ParseErrorKind::UnknownKey(k) => KindView::UnknownKey(opt_view(*k)),
        }
    }
}

/// The sentence a refusal reason prints as.
pub open spec fn kind_message(k: KindView) -> Seq<char> {
    match k {
        KindView::BothIntentMechanismsDisabled => "both `change-files` and `conventional-commits` are disabled; enable one so the plan has intent to read (ADR-0019 / ADR-0029)"@,
        KindView::DuplicateKey => "duplicate configuration key"@,
        KindView::InvalidSyntax => "invalid TOML syntax"@,
        KindView::InvalidToolVersion => "`tool-version` is not a version"@,
        KindView::InvalidValue => "invalid configuration value"@,
        KindView::InvalidExtraFile(reason) => "invalid extra-files entry: "@ + reason,
        KindView::EmptySelectionName => "`include` / `exclude` entries must be non-empty package names with no leading or trailing whitespace"@,
        KindView::EmptyPublishCommand => "`publish-command` must not be empty"@,
        KindView::UnknownSelectionName(name) => "unknown package name in include/exclude: "@ + name,
        KindView::TemplateDoesNotExecute => "templates render; they do not execute (ADR-0006)"@,
        KindView::MissingToolVersion => "missing required `tool-version`"@,
        KindView::MissingField => "a required key is missing"@,
        KindView::ToolVersionRequirement => "`tool-version` must be an exact version, not a version requirement"@,
        KindView::UnknownKey(None) => "unknown configuration key"@,
        KindView::UnknownKey(Some(key)) => "unknown configuration key `"@ + key + "`"@,
    }
}

impl ParseErrorKind {
    /// The sentence this reason prints as.
    pub fn message(&self) -> (m: Text)
        ensures
            m@ == kind_message(self@),
    {
        match self {
            ParseErrorKind::BothIntentMechanismsDisabled => chars_of("both `change-files` and `conventional-commits` are disabled; enable one so the plan has intent to read (ADR-0019 / ADR-0029)"),
            ParseErrorKind::DuplicateKey => chars_of("duplicate configuration key"),
            ParseErrorKind::InvalidSyntax => chars_of("invalid TOML syntax"),
            ParseErrorKind::InvalidToolVersion => chars_of("`tool-version` is not a version"),
            ParseErrorKind::InvalidValue => chars_of("invalid configuration value"),
            ParseErrorKind::InvalidExtraFile(reason) => {
                let mut m = chars_of("invalid extra-files entry: ");
                push_str(&mut m, reason.as_str());
                m
            },
            ParseErrorKind::EmptySelectionName => chars_of("`include` / `exclude` entries must be non-empty package names with no leading or trailing whitespace"),
            ParseErrorKind::EmptyPublishCommand => chars_of("`publish-command` must not be empty"),
            ParseErrorKind::UnknownSelectionName(name) => {
                let mut m = chars_of("unknown package name in include/exclude: ");
                push_str(&mut m, name.as_str());
                m
            },
            ParseErrorKind::TemplateDoesNotExecute => chars_of("templates render; they do not execute (ADR-0006)"),
            ParseErrorKind::MissingToolVersion => chars_of("missing required `tool-version`"),
            ParseErrorKind::MissingField => chars_of("a required key is missing"),
            ParseErrorKind::ToolVersionRequirement => chars_of("`tool-version` must be an exact version, not a version requirement"),
            ParseErrorKind::UnknownKey(None) => chars_of("unknown configuration key"),
            ParseErrorKind::UnknownKey(Some(key)) => {
                let mut m = chars_of("unknown configuration key `");
                push_str(&mut m, key.as_str());
                push_str(&mut m, "`");
                m
            },
        }
    }
}

/// A refused configuration: why, and at which line and column when the
/// refusal points into the text.
#[derive(Clone, Debug)]
pub struct ParseError {
    kind: ParseErrorKind,
    location: Option<(usize, usize)>,
}

impl View for ParseError {
    type V = (KindView, Option<(usize, usize)>);

    closed spec fn view(&self) -> (KindView, Option<(usize, usize)>) {
        (self.kind@, self.location)
    }
}

/// The sentence a refusal prints as.
pub open spec fn error_message(e: (KindView, Option<(usize, usize)>)) -> Seq<char> {
    match e.1 {
        Some((line, column)) => "TOML parse error at line "@ + decimal(line as nat) + ", column "@ + decimal(column as nat) + ": "@ + kind_message(e.0),
        None => kind_message(e.0),
    }
}

impl ParseError {
    /// A refusal that points nowhere in particular.
    pub fn new(kind: ParseErrorKind) -> (e: ParseError)
        ensures
            e@ == (kind@, None::<(usize, usize)>),
    {
        ParseError { kind, location: None }
    }

    /// A refusal at `line`, `column`.
    pub fn located(kind: ParseErrorKind, line: usize, column: usize) -> (e: ParseError)
        ensures
            e@ == (kind@, Some((line, column))),
    {
        ParseError { kind, location: Some((line, column)) }
    }

    pub fn kind(&self) -> (k: &ParseErrorKind)
        ensures
            k@ == self@.0,
    {
        &self.kind
    }

    pub fn location(&self) -> (l: Option<(usize, usize)>)
        ensures
            l == self@.1,
    {
        self.location
    }

    /// The sentence this refusal prints as.
    pub fn message(&self) -> (m: String)
        ensures
            m@ == error_message(self@),
    {
        let body = self.kind.message();
        match self.location {
            Some((line, column)) => {
                let mut m = chars_of("TOML parse error at line ");
                push_all(&mut m, &decimal_of(line));
                push_str(&mut m, ", column ");
                push_all(&mut m, &decimal_of(column));
                push_str(&mut m, ": ");
                push_all(&mut m, &body);
                string_of(&m)
            },
            None => string_of(&body),
        }
    }
}

// ---------------------------------------------------------------------------
// Where in the text
// ---------------------------------------------------------------------------

/// How many bytes UTF-8 spends on `c`.
pub open spec fn utf8_len(c: char) -> int {
    let u = c as u32;
    if u < 0x80 {
        1
    } else if u < 0x800 {
        2
    } else if u < 0x10000 {
        3
    } else {
        4
    }
}

/// How many whole characters at the front of `s` fit in `budget` bytes.
pub open spec fn whole_chars(s: Seq<char>, budget: int) -> nat
    decreases s.len(),
{
    if s.len() > 0 && utf8_len(s[0]) <= budget {
        1 + whole_chars(s.drop_first(), budget - utf8_len(s[0]))
    } else {
        0
    }
}

/// The bytes `s` takes in UTF-8.
pub open spec fn utf8_bytes(s: Seq<char>) -> int
    decreases s.len(),
{
    if s.len() == 0 {
        0
    } else {
        utf8_bytes(s.drop_last()) + utf8_len(s.last())
    }
}

/// How many line breaks `s` holds.
pub open spec fn newlines(s: Seq<char>) -> nat
    decreases s.len(),
{
    if s.len() == 0 {
        0
    } else {
        newlines(s.drop_last()) + (if s.last() == '\n' {
            1nat
        } else {
            0nat
        })
    }
}

/// How many characters follow the last line break of `s`.
pub open spec fn since_newline(s: Seq<char>) -> nat
    decreases s.len(),
{
    if s.len() == 0 {
        0
    } else if s.last() == '\n' {
        0
    } else {
        since_newline(s.drop_last()) + 1
    }
}

/// The 1-based line and column of byte `offset` of `text`. Columns count
/// characters, and a character the offset cuts counts as one.
pub open spec fn location_of(text: Seq<char>, offset: int) -> (int, int) {
    let k = whole_chars(text, offset);
    let p = text.take(k as int);
    let cut = k < text.len() && utf8_bytes(p) < offset;
    (newlines(p) + 1int, since_newline(p) + (if cut {
        1int
    } else {
        0int
    }) + 1int)
}

fn utf8_width(c: char) -> (n: usize)
    ensures
        n == utf8_len(c),
{
    let u = c as u32;
    if u < 0x80 {
        1
    } else if u < 0x800 {
        2
    } else if u < 0x10000 {
        3
    } else {
        4
    }
}

/// The line and column byte `offset` of `text` falls on.
pub fn line_and_column(text: &str, offset: usize) -> (r: (usize, usize))
    requires
        text@.len() + 2 < usize::MAX,
    ensures
        (r.0 as int, r.1 as int) == location_of(text@, offset as int),
{
    let s = chars_of(text);
    let n = s.len();
    let mut used: usize = 0;
    let mut i: usize = 0;
    let mut line: usize = 0;
    let mut column: usize = 0;
    assert(s@.skip(0) =~= s@);
    assert(s@.take(0) =~= Seq::<char>::empty());
    loop
        invariant
            n == s@.len(),
            n + 2 < usize::MAX,
            i <= n,
            used <= offset,
            used == utf8_bytes(s@.take(i as int)),
            whole_chars(s@, offset as int) == i + whole_chars(s@.skip(i as int), offset - used),
            line == newlines(s@.take(i as int)),
            column == since_newline(s@.take(i as int)),
            line <= i,
            column <= i,
        ensures
            i <= n,
            whole_chars(s@, offset as int) == i,
            used == utf8_bytes(s@.take(i as int)),
            line == newlines(s@.take(i as int)),
            column == since_newline(s@.take(i as int)),
            line <= i,
            column <= i,
        decreases n - i,
    {
        if i == n {
            break;
        }
        let w = utf8_width(s[i]);
        assert(s@.skip(i as int)[0] == s@[i as int]);
        assert(s@.skip(i as int).drop_first() == s@.skip(i + 1));
        if w > offset - used {
            break;
        }
        assert(s@.take(i + 1).drop_last() == s@.take(i as int));
        assert(s@.take(i + 1).last() == s@[i as int]);
        used = used + w;
        if s[i] == '\n' {
            line = line + 1;
            column = 0;
        } else {
            column = column + 1;
        }
        i = i + 1;
    }
    let cut = i < n && used < offset;
    (line + 1, if cut { column + 2 } else { column + 1 })
}

/// How many whole characters of `s` fit in `budget` bytes, and the bytes
/// they take.
fn fitting_chars(s: &Vec<char>, budget: usize) -> (r: (usize, usize))
    ensures
        r.0 == whole_chars(s@, budget as int),
        r.0 <= s@.len(),
        r.1 == utf8_bytes(s@.take(r.0 as int)),
        r.1 <= budget,
{
    let n = s.len();
    let mut used: usize = 0;
    let mut i: usize = 0;
    assert(s@.skip(0) =~= s@);
    assert(s@.take(0) =~= Seq::<char>::empty());
    loop
        invariant
            n == s@.len(),
            i <= n,
            used <= budget,
            used == utf8_bytes(s@.take(i as int)),
            whole_chars(s@, budget as int) == i + whole_chars(s@.skip(i as int), budget - used),
        ensures
            i <= n,
            whole_chars(s@, budget as int) == i,
            used == utf8_bytes(s@.take(i as int)),
            used <= budget,
        decreases n - i,
    {
        if i == n {
            break;
        }
        let w = utf8_width(s[i]);
        assert(s@.skip(i as int)[0] == s@[i as int]);
        assert(s@.skip(i as int).drop_first() == s@.skip(i + 1));
        if w > budget - used {
            break;
        }
        assert(s@.take(i + 1).drop_last() == s@.take(i as int));
        assert(s@.take(i + 1).last() == s@[i as int]);
        used = used + w;
        i = i + 1;
    }
    (i, used)
}

/// The character index byte `b` of `s` falls on, when it falls between two
/// characters.
pub open spec fn char_boundary(s: Seq<char>, b: int) -> Option<int> {
    let k = whole_chars(s, b);
    if utf8_bytes(s.take(k as int)) == b {
        Some(k as int)
    } else {
        None
    }
}

/// `text` with the bytes from `start` to `end` replaced by `value` in
/// double quotes, when both fall between characters in that order.
pub open spec fn spliced_value(text: Seq<char>, start: int, end: int, value: Seq<char>) -> Option<Seq<char>> {
    match (char_boundary(text, start), char_boundary(text, end)) {
        (Some(i), Some(j)) => if i <= j {
            Some(text.take(i) + seq!['"'] + value + seq!['"'] + text.skip(j))
        } else {
            None
        },
        _ => None,
    }
}

/// The config text with the `tool-version` value, which the reader found
/// at bytes `start..end`, replaced by `version` and every other byte kept.
pub fn splice_tool_version(text: &str, start: usize, end: usize, version: &SemVer) -> (r: Option<String>)
    ensures
        match spliced_value(text@, start as int, end as int, version_text(version@)) {
            Some(t) => r matches Some(x) && x@ == t,
            None => r is None,
        },
{
    let s = chars_of(text);
    let (i, at) = fitting_chars(&s, start);
    let (j, to) = fitting_chars(&s, end);
    if at != start || to != end || i > j {
        return None;
    }
    let mut out: Text = crate::text::slice_of(&s, 0, i);
    out.push('"');
    push_all(&mut out, &version.chars());
    out.push('"');
    push_all(&mut out, &crate::text::slice_of(&s, j, s.len()));
    assert(s@.subrange(0, i as int) =~= s@.take(i as int));
    assert(s@.subrange(j as int, s@.len() as int) =~= s@.skip(j as int));
    Some(crate::text::string_of(&out))
}

/// The re-read config pins `version`, or the splice did not land.
pub fn confirm_tool_version(reread: &OakumConfig, version: &SemVer) -> (r: Result<(), ParseError>)
    ensures
        r is Ok <==> reread@.tool_version == Some(version@),
        r matches Err(e) ==> e@ == (KindView::InvalidToolVersion, None::<(usize, usize)>),
{
    match reread.tool_version() {
        Some(v) => if v.same_as(version) {
            Ok(())
        } else {
            Err(ParseError::new(ParseErrorKind::InvalidToolVersion))
        },
        None => Err(ParseError::new(ParseErrorKind::InvalidToolVersion)),
    }
}

// ---------------------------------------------------------------------------
// What the TOML reader said
// ---------------------------------------------------------------------------

/// The refusal reason a TOML reader's message comes to. `key` is the
/// resolved name of the key the message points at, when it could be found.
pub open spec fn toml_kind(message: Seq<char>, key: Option<Seq<char>>) -> KindView {
    if starts_with(message, "unknown field"@) {
        KindView::UnknownKey(key)
    } else if starts_with(message, "missing field `tool-version`"@) {
        KindView::MissingToolVersion
    } else if starts_with(message, "duplicate field"@) || starts_with(message, "duplicate key"@) {
        KindView::DuplicateKey
    } else if contains(message, "do not execute"@) {
        KindView::TemplateDoesNotExecute
    } else if starts_with(message, "missing field"@) {
        KindView::MissingField
    } else if starts_with(message, "invalid type"@) || starts_with(message, "invalid value"@)
        || starts_with(message, "unknown variant"@) || contains(message, "`file` is empty"@)
        || contains(message, "template table needs"@) || contains(message, "unknown template table key"@) {
        KindView::InvalidValue
    } else {
        KindView::InvalidSyntax
    }
}

/// The refusal a TOML reader's error comes to: its reason, and where it
/// points when it points anywhere. `key` is consulted only with an offset.
pub open spec fn toml_refusal(text: Seq<char>, message: Seq<char>, offset: Option<usize>, key: Option<Seq<char>>) -> (KindView, Option<(usize, usize)>) {
    match offset {
        Some(o) => {
            let (l, c) = location_of(text, o as int);
            (toml_kind(message, key), Some((l as usize, c as usize)))
        },
        None => (toml_kind(message, None), None),
    }
}

/// The refusal for a document the TOML reader rejected with `message`,
/// pointing at byte `offset` when it gave one. `key` is the resolved name
/// of the key at that offset, when it could be found.
pub fn toml_error(text: &str, message: &str, offset: Option<usize>, key: Option<String>) -> (e: ParseError)
    requires
        text@.len() + 2 < usize::MAX,
    ensures
        e@ == toml_refusal(text@, message@, offset, opt_view(key)),
{
    let m = chars_of(message);
    let named = match offset {
        Some(_) => key,
        None => None,
    };
    let kind = if begins_str(&m, "unknown field") {
        ParseErrorKind::UnknownKey(named)
    } else if begins_str(&m, "missing field `tool-version`") {
        ParseErrorKind::MissingToolVersion
    } else if begins_str(&m, "duplicate field") || begins_str(&m, "duplicate key") {
        ParseErrorKind::DuplicateKey
    } else if has_str(&m, "do not execute") {
        ParseErrorKind::TemplateDoesNotExecute
    } else if begins_str(&m, "missing field") {
        ParseErrorKind::MissingField
    } else if begins_str(&m, "invalid type") || begins_str(&m, "invalid value") || begins_str(&m, "unknown variant")
        || has_str(&m, "`file` is empty") || has_str(&m, "template table needs") || has_str(&m, "unknown template table key") {
        ParseErrorKind::InvalidValue
    } else {
        ParseErrorKind::InvalidSyntax
    };
    match offset {
        Some(o) => {
            let (line, column) = line_and_column(text, o);
            ParseError::located(kind, line, column)
        },
        None => ParseError::new(kind),
    }
}

// ---------------------------------------------------------------------------
// The document, checked
// ---------------------------------------------------------------------------

/// A declared extra file as the document wrote it.
pub struct ExtraFileEntry {
    pub path: String,
    pub format: ExtraFileFormat,
    pub key: String,
}

/// A `[packages.<name>]` table as the document wrote it.
pub struct PackageDocument {
    pub versioning: Option<Versioning>,
    pub resolves_dependencies_at: Option<ResolvesDependenciesAt>,
    pub extra_files: Vec<ExtraFileEntry>,
    pub publish_command: Option<String>,
}

/// A template value as the document wrote it: a source, or a table asking
/// for a command, which is refused (templates render; they do not execute).
pub enum TemplateEntry {
    Source(TemplateSource),
    /// A `{ command = ... }` table; the byte offset its value starts at.
    Command { at: usize },
}

/// A template entry as the contracts see it: a source, or where a command
/// table starts.
pub open spec fn entry_template_view(t: Option<TemplateEntry>) -> Option<Result<(bool, Seq<char>), usize>> {
    match t {
        Some(TemplateEntry::Source(s)) => Some(Ok(template_view(s))),
        Some(TemplateEntry::Command { at }) => Some(Err(at)),
        None => None,
    }
}

/// A `_config.toml` whose grammar and key names were read: each value as the
/// file wrote it, `None` for a key it omits, nothing else checked yet.
pub struct ConfigDocument {
    pub tool_version: String,
    /// The byte offset the `tool-version` value starts at.
    pub tool_version_at: usize,
    pub change_files: Option<bool>,
    pub conventional_commits: Option<bool>,
    pub versioning: Option<Versioning>,
    pub pr_status: Option<PrStatus>,
    pub tag_format: Option<TemplateEntry>,
    pub commit_message: Option<TemplateEntry>,
    pub title: Option<TemplateEntry>,
    pub template: Option<TemplateEntry>,
    pub private_packages: Option<PrivatePackages>,
    pub included: Vec<String>,
    pub exclude: Vec<String>,
    pub packages: Vec<(String, PackageDocument)>,
}

/// `tool-version` as an exact version, or why it is not one. A string that
/// is a requirement but not a version is named as such.
pub open spec fn exact_version(raw: Seq<char>) -> Result<VersionView, KindView> {
    match semver_parse(raw) {
        Some(v) => Ok(v),
        None => if semver_req_parses(raw) {
            Err(KindView::ToolVersionRequirement)
        } else {
            Err(KindView::InvalidToolVersion)
        },
    }
}

/// A selection name is non-empty and carries no surrounding whitespace.
pub open spec fn names_ok(names: Seq<Seq<char>>) -> bool {
    forall|i: int| 0 <= i < names.len() ==> trim(#[trigger] names[i]).len() > 0 && trim(names[i]) == names[i]
}

/// How deep the path components `parts` lead: `.` and empty components stay,
/// `..` climbs back. Climbing above the start is refused when `strict`, and
/// stays at the start otherwise.
pub open spec fn path_depth(parts: Seq<Seq<char>>, strict: bool) -> Option<nat>
    decreases parts.len(),
{
    if parts.len() == 0 {
        Some(0)
    } else {
        match path_depth(parts.drop_last(), strict) {
            None => None,
            Some(d) => {
                let p = parts.last();
                if p.len() == 0 || p == "."@ {
                    Some(d)
                } else if p == ".."@ {
                    if d > 0 {
                        Some((d - 1) as nat)
                    } else if strict {
                        None
                    } else {
                        Some(0)
                    }
                } else {
                    Some(d + 1)
                }
            },
        }
    }
}

/// One declared extra file, checked: the path and key trimmed, a path that
/// is empty, `/` alone, normalizes to nothing, or (from the repository root)
/// climbs out refused, and an empty or malformed key path refused.
/// Whether a (trimmed) extra-file path names a file inside the
/// repository: read from the root when it starts with `/`, `.` and `..`
/// resolved, it never climbs above where it starts and ends below it.
pub open spec fn path_stays_inside(p: Seq<char>) -> bool {
    let rooted = p.len() > 0 && p[0] == '/';
    let relative = if rooted { p.drop_first() } else { p };
    path_depth(split(relative, '/'), rooted) matches Some(depth) && depth > 0
}

pub open spec fn extra_file_outcome(path: Seq<char>, format: ExtraFileFormat, key: Seq<char>) -> Result<ExtraFileView, KindView> {
    let p = trim(path);
    let rooted = p.len() > 0 && p[0] == '/';
    let relative = if rooted { p.drop_first() } else { p };
    match path_depth(split(relative, '/'), rooted) {
        None => Err(KindView::InvalidExtraFile("path must stay inside the repository"@)),
        Some(depth) => if p.len() == 0 || p == seq!['/'] || depth == 0 {
            Err(KindView::InvalidExtraFile("path must be a non-empty relative path (not `/` alone)"@))
        } else if trim(key).len() == 0 {
            Err(KindView::InvalidExtraFile("key must not be empty"@))
        } else {
            match key_path_fault(trim(key)) {
                Some(reason) => Err(KindView::InvalidExtraFile(reason)),
                None => Ok((p, format, trim(key))),
            }
        },
    }
}

/// Where a scan of a write key path stands after some characters.
#[derive(Clone, Copy, Debug, PartialEq, Eq, Structural)]
pub enum KeyScan {
    /// At the start of a segment: nothing yet, or just after a `.`.
    SegmentStart,
    /// Inside a plain segment.
    Name,
    /// Just after the `{` that opens a match segment.
    MatchOpen,
    /// Inside a match's field.
    Field,
    /// Just after the match's `=`.
    Equals,
    /// Inside a match's value, which may hold dots.
    Value,
    /// Just after the `}` that closes a match.
    MatchClosed,
}

/// Why a key path is refused: a segment with nothing in it.
pub open spec fn empty_segment_reason() -> Seq<char> {
    "key path has an empty segment"@
}

/// Why a key path is refused: a brace outside a `{field=value}` segment.
pub open spec fn stray_brace_reason() -> Seq<char> {
    "`{` and `}` only wrap a whole `{field=value}` segment"@
}

/// Why a key path is refused: a match missing its field or its value.
pub open spec fn bare_match_reason() -> Seq<char> {
    "a `{field=value}` match needs a field and a value"@
}

/// Why a key path is refused: a match not followed by `.`.
pub open spec fn joined_match_reason() -> Seq<char> {
    "a `{field=value}` match must be followed by `.`"@
}

/// Why a key path is refused: the last segment is a match.
pub open spec fn leaf_match_reason() -> Seq<char> {
    "key path cannot end with a `{field=value}` match; name the key to write"@
}

/// Why a key path is refused: a match left open.
pub open spec fn open_match_reason() -> Seq<char> {
    "key path has an unclosed `{`"@
}

/// One character of a write key path read in state `s`. A path is
/// segments joined by `.`; a segment is a plain name or a `{field=value}`
/// match selecting one element of an array, whose value may hold dots.
pub open spec fn key_step(s: KeyScan, c: char) -> Result<KeyScan, Seq<char>> {
    match s {
        KeyScan::SegmentStart => if c == '.' {
            Err(empty_segment_reason())
        } else if c == '{' {
            Ok(KeyScan::MatchOpen)
        } else if c == '}' {
            Err(stray_brace_reason())
        } else {
            Ok(KeyScan::Name)
        },
        KeyScan::Name => if c == '.' {
            Ok(KeyScan::SegmentStart)
        } else if c == '{' || c == '}' {
            Err(stray_brace_reason())
        } else {
            Ok(KeyScan::Name)
        },
        KeyScan::MatchOpen => if c == '=' || c == '{' || c == '}' {
            Err(bare_match_reason())
        } else {
            Ok(KeyScan::Field)
        },
        KeyScan::Field => if c == '=' {
            Ok(KeyScan::Equals)
        } else if c == '{' || c == '}' {
            Err(bare_match_reason())
        } else {
            Ok(KeyScan::Field)
        },
        KeyScan::Equals => if c == '{' || c == '}' {
            Err(bare_match_reason())
        } else {
            Ok(KeyScan::Value)
        },
        KeyScan::Value => if c == '}' {
            Ok(KeyScan::MatchClosed)
        } else if c == '{' {
            Err(bare_match_reason())
        } else {
            Ok(KeyScan::Value)
        },
        KeyScan::MatchClosed => if c == '.' {
            Ok(KeyScan::SegmentStart)
        } else {
            Err(joined_match_reason())
        },
    }
}

/// The state a whole key path leaves a scan in, or the first refusal.
pub open spec fn key_scan(k: Seq<char>) -> Result<KeyScan, Seq<char>>
    decreases k.len(),
{
    if k.len() == 0 {
        Ok(KeyScan::SegmentStart)
    } else {
        match key_scan(k.drop_last()) {
            Err(r) => Err(r),
            Ok(s) => key_step(s, k.last()),
        }
    }
}

/// Why a write key path is refused, or nothing when it is well formed.
pub open spec fn key_path_fault(k: Seq<char>) -> Option<Seq<char>> {
    match key_scan(k) {
        Err(r) => Some(r),
        Ok(s) => match s {
            KeyScan::Name => None,
            KeyScan::SegmentStart => Some(empty_segment_reason()),
            KeyScan::MatchClosed => Some(leaf_match_reason()),
            _ => Some(open_match_reason()),
        },
    }
}

fn key_step_exec(s: KeyScan, c: char) -> (r: Result<KeyScan, &'static str>)
    ensures
        match key_step(s, c) {
            Ok(t) => r == Ok::<KeyScan, &'static str>(t),
            Err(m) => r matches Err(x) && x@ == m,
        },
{
    match s {
        KeyScan::SegmentStart => if c == '.' {
            Err("key path has an empty segment")
        } else if c == '{' {
            Ok(KeyScan::MatchOpen)
        } else if c == '}' {
            Err("`{` and `}` only wrap a whole `{field=value}` segment")
        } else {
            Ok(KeyScan::Name)
        },
        KeyScan::Name => if c == '.' {
            Ok(KeyScan::SegmentStart)
        } else if c == '{' || c == '}' {
            Err("`{` and `}` only wrap a whole `{field=value}` segment")
        } else {
            Ok(KeyScan::Name)
        },
        KeyScan::MatchOpen => if c == '=' || c == '{' || c == '}' {
            Err("a `{field=value}` match needs a field and a value")
        } else {
            Ok(KeyScan::Field)
        },
        KeyScan::Field => if c == '=' {
            Ok(KeyScan::Equals)
        } else if c == '{' || c == '}' {
            Err("a `{field=value}` match needs a field and a value")
        } else {
            Ok(KeyScan::Field)
        },
        KeyScan::Equals => if c == '{' || c == '}' {
            Err("a `{field=value}` match needs a field and a value")
        } else {
            Ok(KeyScan::Value)
        },
        KeyScan::Value => if c == '}' {
            Ok(KeyScan::MatchClosed)
        } else if c == '{' {
            Err("a `{field=value}` match needs a field and a value")
        } else {
            Ok(KeyScan::Value)
        },
        KeyScan::MatchClosed => if c == '.' {
            Ok(KeyScan::SegmentStart)
        } else {
            Err("a `{field=value}` match must be followed by `.`")
        },
    }
}

/// Why the write key path `k` is refused, or nothing when it is well formed.
pub fn key_path_refusal(k: &[char]) -> (r: Option<&'static str>)
    ensures
        match key_path_fault(k@) {
            Some(m) => r matches Some(x) && x@ == m,
            None => r is None,
        },
{
    let mut state = KeyScan::SegmentStart;
    let mut i: usize = 0;
    assert(k@.take(0) =~= Seq::<char>::empty());
    while i < k.len()
        invariant
            i <= k@.len(),
            key_scan(k@.take(i as int)) == Ok::<KeyScan, Seq<char>>(state),
        decreases k@.len() - i,
    {
        assert(k@.take(i + 1).drop_last() =~= k@.take(i as int));
        assert(k@.take(i + 1).last() == k@[i as int]);
        match key_step_exec(state, k[i]) {
            Ok(t) => {
                state = t;
            },
            Err(m) => {
                proof {
                    lemma_key_scan_refusal_sticks(k@, (i + 1) as int);
                }
                return Some(m);
            },
        }
        i = i + 1;
    }
    assert(k@.take(k@.len() as int) =~= k@);
    match state {
        KeyScan::Name => None,
        KeyScan::SegmentStart => Some("key path has an empty segment"),
        KeyScan::MatchClosed => Some("key path cannot end with a `{field=value}` match; name the key to write"),
        _ => Some("key path has an unclosed `{`"),
    }
}

proof fn lemma_key_scan_refusal_sticks(k: Seq<char>, i: int)
    requires
        0 <= i <= k.len(),
        key_scan(k.take(i)) is Err,
    ensures
        key_scan(k) == key_scan(k.take(i)),
    decreases k.len() - i,
{
    if i < k.len() {
        assert(k.take(i + 1).drop_last() =~= k.take(i));
        lemma_key_scan_refusal_sticks(k, i + 1);
    } else {
        assert(k.take(i) =~= k);
    }
}

/// An extra file entry as the contracts see it.
pub open spec fn entry_view(e: ExtraFileEntry) -> (Seq<char>, ExtraFileFormat, Seq<char>) {
    (e.path@, e.format, e.key@)
}

/// Every extra file checked in order, or the first refusal.
pub open spec fn extra_files_outcome(es: Seq<(Seq<char>, ExtraFileFormat, Seq<char>)>) -> Result<Seq<ExtraFileView>, KindView>
    decreases es.len(),
{
    if es.len() == 0 {
        Ok(Seq::empty())
    } else {
        match extra_files_outcome(es.drop_last()) {
            Err(k) => Err(k),
            Ok(done) => match extra_file_outcome(es.last().0, es.last().1, es.last().2) {
                Ok(f) => Ok(done.push(f)),
                Err(k) => Err(k),
            },
        }
    }
}

/// A package table as the contracts see it.
pub type PackageDocView = (Option<Versioning>, Option<ResolvesDependenciesAt>, Seq<(Seq<char>, ExtraFileFormat, Seq<char>)>, Option<Seq<char>>);

pub open spec fn package_doc_view(p: PackageDocument) -> PackageDocView {
    (p.versioning, p.resolves_dependencies_at, p.extra_files@.map_values(|e: ExtraFileEntry| entry_view(e)), opt_view(p.publish_command))
}

/// One package table checked: its extra files, then its publish command,
/// which is trimmed and must not be empty.
pub open spec fn package_outcome(p: PackageDocView) -> Result<PackageConfigView, KindView> {
    match extra_files_outcome(p.2) {
        Err(k) => Err(k),
        Ok(files) => match p.3 {
            None => Ok((p.0, p.1, files, None)),
            Some(raw) => if trim(raw).len() == 0 {
                Err(KindView::EmptyPublishCommand)
            } else {
                Ok((p.0, p.1, files, Some(trim(raw))))
            },
        },
    }
}

/// Every package table checked in order, or the first refusal.
pub open spec fn packages_outcome(ps: Seq<(Seq<char>, PackageDocView)>) -> Result<Seq<(Seq<char>, PackageConfigView)>, KindView>
    decreases ps.len(),
{
    if ps.len() == 0 {
        Ok(Seq::empty())
    } else {
        match packages_outcome(ps.drop_last()) {
            Err(k) => Err(k),
            Ok(done) => match package_outcome(ps.last().1) {
                Ok(p) => Ok(done.push((ps.last().0, p))),
                Err(k) => Err(k),
            },
        }
    }
}

/// An inline template with an empty body reads as no template.
pub open spec fn nonempty_template(t: Option<(bool, Seq<char>)>) -> Option<(bool, Seq<char>)> {
    match t {
        Some((false, body)) => if body.len() == 0 {
            None
        } else {
            t
        },
        _ => t,
    }
}

/// A document as the contracts see it.
pub struct DocumentView {
    pub tool_version: Seq<char>,
    pub tool_version_at: usize,
    pub change_files: Option<bool>,
    pub conventional_commits: Option<bool>,
    pub versioning: Option<Versioning>,
    pub pr_status: Option<PrStatus>,
    pub tag_format: Option<Result<(bool, Seq<char>), usize>>,
    pub commit_message: Option<Result<(bool, Seq<char>), usize>>,
    pub title: Option<Result<(bool, Seq<char>), usize>>,
    pub template: Option<Result<(bool, Seq<char>), usize>>,
    pub private_packages: Option<(bool, bool)>,
    pub included: Seq<Seq<char>>,
    pub exclude: Seq<Seq<char>>,
    pub packages: Seq<(Seq<char>, PackageDocView)>,
}

pub open spec fn document_view(d: ConfigDocument) -> DocumentView {
    DocumentView {
        tool_version: d.tool_version@,
        tool_version_at: d.tool_version_at,
        change_files: d.change_files,
        conventional_commits: d.conventional_commits,
        versioning: d.versioning,
        pr_status: d.pr_status,
        tag_format: entry_template_view(d.tag_format),
        commit_message: entry_template_view(d.commit_message),
        title: entry_template_view(d.title),
        template: entry_template_view(d.template),
        private_packages: match d.private_packages {
            Some(p) => Some(p@),
            None => None,
        },
        included: d.included.deep_view(),
        exclude: d.exclude.deep_view(),
        packages: d.packages@.map_values(|p: (String, PackageDocument)| (p.0@, package_doc_view(p.1))),
    }
}

/// What a document comes to: `tool-version` must be an exact version, one
/// intent mechanism must stay on, selection names must be clean, and every
/// package table must check; the first failure in that order refuses.
pub open spec fn config_outcome(text: Seq<char>, d: DocumentView) -> Result<ConfigView, (KindView, Option<(usize, usize)>)> {
    match first_command(d) {
        Some(at) => {
            let (l, c) = location_of(text, at as int);
            Err((KindView::TemplateDoesNotExecute, Some((l as usize, c as usize))))
        },
        None => read_outcome(text, d),
    }
}

/// The first template, in the schema's order, that asks for a command.
pub open spec fn first_command(d: DocumentView) -> Option<usize> {
    match (d.tag_format, d.commit_message, d.title, d.template) {
        (Some(Err(at)), _, _, _) => Some(at),
        (_, Some(Err(at)), _, _) => Some(at),
        (_, _, Some(Err(at)), _) => Some(at),
        (_, _, _, Some(Err(at))) => Some(at),
        _ => None,
    }
}

/// A template entry once no command is among them: the source it names.
pub open spec fn source_of(t: Option<Result<(bool, Seq<char>), usize>>) -> Option<(bool, Seq<char>)> {
    match t {
        Some(Ok(s)) => Some(s),
        _ => None,
    }
}

/// An omitted flag reads as `default`.
pub open spec fn flag_or(b: Option<bool>, default: bool) -> bool {
    match b {
        Some(x) => x,
        None => default,
    }
}

/// What a document without command templates yields: omitted preferences
/// take their defaults (both intent mechanisms on, `zero-major`, `both`,
/// neither private axis).
pub open spec fn read_outcome(text: Seq<char>, d: DocumentView) -> Result<ConfigView, (KindView, Option<(usize, usize)>)> {
    let change_files = flag_or(d.change_files, true);
    let conventional_commits = flag_or(d.conventional_commits, true);
    match exact_version(d.tool_version) {
        Err(k) => {
            let (l, c) = location_of(text, d.tool_version_at as int);
            Err((k, Some((l as usize, c as usize))))
        },
        Ok(v) => if !change_files && !conventional_commits {
            Err((KindView::BothIntentMechanismsDisabled, None))
        } else if !names_ok(d.included) || !names_ok(d.exclude) {
            Err((KindView::EmptySelectionName, None))
        } else {
            match packages_outcome(d.packages) {
                Err(k) => Err((k, None)),
                Ok(ps) => Ok(ConfigView {
                    tool_version: Some(v),
                    change_files,
                    conventional_commits,
                    versioning: match d.versioning {
                        Some(x) => x,
                        None => Versioning::ZeroMajor,
                    },
                    pr_status: match d.pr_status {
                        Some(x) => x,
                        None => PrStatus::Both,
                    },
                    tag_format: nonempty_template(source_of(d.tag_format)),
                    commit_message: nonempty_template(source_of(d.commit_message)),
                    title: nonempty_template(source_of(d.title)),
                    template: source_of(d.template),
                    private_packages: match d.private_packages {
                        Some(p) => p,
                        None => (false, false),
                    },
                    included: d.included,
                    exclude: d.exclude,
                    packages: ps,
                }),
            }
        },
    }
}

/// A declared extra file as a read configuration holds it: a path that is
/// not empty, not `/` alone, with no whitespace at either end, that stays
/// inside the repository and names something below where it starts; the
/// JSON format; and a key path, likewise trimmed, that is well formed.
pub open spec fn clean_extra_file(f: ExtraFileView) -> bool {
    &&& f.0.len() > 0 && f.0 != seq!['/']
    &&& path_stays_inside(f.0)
    &&& f.1 == ExtraFileFormat::Json
    &&& !crate::text::is_space(f.0[0]) && !crate::text::is_space(f.0.last())
    &&& f.2.len() > 0
    &&& !crate::text::is_space(f.2[0]) && !crate::text::is_space(f.2.last())
    &&& key_path_fault(f.2) is None
}

proof fn lemma_trim_start_edge(s: Seq<char>)
    ensures
        trim_start_len_ok(s),
    decreases s.len(),
{
    if s.len() > 0 && crate::text::is_space(s[0]) {
        lemma_trim_start_edge(s.drop_first());
    }
}

/// What trimming the front leaves: nothing, or a non-space first character.
spec fn trim_start_len_ok(s: Seq<char>) -> bool {
    let t = crate::text::trim_start(s);
    t.len() > 0 ==> !crate::text::is_space(t[0])
}

proof fn lemma_trim_end_prefix(s: Seq<char>)
    ensures
        crate::text::trim_end(s).len() <= s.len(),
        crate::text::trim_end(s) == s.take(crate::text::trim_end(s).len() as int),
        crate::text::trim_end(s).len() > 0 ==> !crate::text::is_space(crate::text::trim_end(s).last()),
    decreases s.len(),
{
    if s.len() > 0 && crate::text::is_space(s.last()) {
        lemma_trim_end_prefix(s.drop_last());
        let t = crate::text::trim_end(s.drop_last());
        assert(s.drop_last().take(t.len() as int) =~= s.take(t.len() as int));
    } else {
        assert(s.take(s.len() as int) =~= s);
    }
}

/// A trimmed run has no whitespace at either end.
proof fn lemma_trim_edges(s: Seq<char>)
    ensures
        trim(s).len() > 0 ==> !crate::text::is_space(trim(s)[0]) && !crate::text::is_space(trim(s).last()),
{
    lemma_trim_start_edge(s);
    let t = crate::text::trim_start(s);
    lemma_trim_end_prefix(t);
    if trim(s).len() > 0 {
        assert(trim(s)[0] == t.take(trim(s).len() as int)[0]);
    }
}

proof fn lemma_extra_files_clean(es: Seq<(Seq<char>, ExtraFileFormat, Seq<char>)>)
    ensures
        extra_files_outcome(es) matches Ok(fs) ==> forall|j: int| 0 <= j < fs.len() ==> clean_extra_file(#[trigger] fs[j]),
    decreases es.len(),
{
    if es.len() > 0 {
        lemma_extra_files_clean(es.drop_last());
        let e = es.last();
        lemma_trim_edges(e.0);
        lemma_trim_edges(e.2);
    }
}

proof fn lemma_packages_clean(ps: Seq<(Seq<char>, PackageDocView)>)
    ensures
        packages_outcome(ps) matches Ok(qs) ==> forall|i: int, j: int|
            0 <= i < qs.len() && 0 <= j < qs[i].1.2.len() ==> clean_extra_file(#[trigger] qs[i].1.2[j]),
    decreases ps.len(),
{
    if ps.len() > 0 {
        lemma_packages_clean(ps.drop_last());
        lemma_extra_files_clean(ps.last().1.2);
    }
}

/// Every extra file of every package a read configuration holds is clean:
/// its path names a file inside the repository, its format is JSON, its key
/// path is well formed, and neither carries whitespace at its ends.
pub proof fn lemma_every_read_extra_file_is_clean(text: Seq<char>, d: DocumentView)
    ensures
        config_outcome(text, d) matches Ok(c) ==> forall|i: int, j: int|
            0 <= i < c.packages.len() && 0 <= j < c.packages[i].1.2.len() ==> clean_extra_file(#[trigger] c.packages[i].1.2[j]),
{
    lemma_packages_clean(d.packages);
}

/// A document that states only an exact `tool-version` reads as the
/// defaults pinned to that version: every omitted key takes the value
/// [`defaults_view`] gives it.
pub proof fn lemma_omitted_keys_take_the_defaults(text: Seq<char>, d: DocumentView)
    requires
        d.change_files is None,
        d.conventional_commits is None,
        d.versioning is None,
        d.pr_status is None,
        d.tag_format is None,
        d.commit_message is None,
        d.title is None,
        d.template is None,
        d.private_packages is None,
        d.included.len() == 0,
        d.exclude.len() == 0,
        d.packages.len() == 0,
    ensures
        exact_version(d.tool_version) matches Ok(v) ==> config_outcome(text, d) == Ok::<ConfigView, (KindView, Option<(usize, usize)>)>(ConfigView {
            tool_version: Some(v),
            ..defaults_view()
        }),
{
    if exact_version(d.tool_version) is Ok {
        assert(names_ok(d.included) && names_ok(d.exclude));
        assert(packages_outcome(d.packages) == Ok::<Seq<(Seq<char>, PackageConfigView)>, KindView>(Seq::empty()));
        assert(d.included =~= Seq::<Seq<char>>::empty());
        assert(d.exclude =~= Seq::<Seq<char>>::empty());
    }
}

/// Every configuration a document yields is pinned to an exact version,
/// reads intent from at least one mechanism, and names its selection with
/// clean names only; and exclusion always wins over inclusion.
pub proof fn lemma_a_read_config_is_pinned_and_has_intent(text: Seq<char>, d: DocumentView, name: Seq<char>)
    ensures
        config_outcome(text, d) matches Ok(c) ==> {
            &&& c.tool_version is Some
            &&& c.change_files || c.conventional_commits
            &&& names_ok(c.included) && names_ok(c.exclude)
            &&& (c.exclude.contains(name) ==> !is_selected(c, name))
        },
{
}

/// `tool-version` as an exact version, or why it is not one.
fn exact_tool_version(raw: &str) -> (r: Result<SemVer, ParseErrorKind>)
    ensures
        match exact_version(raw@) {
            Ok(v) => r matches Ok(x) && x@ == v,
            Err(k) => r matches Err(e) && e@ == k,
        },
{
    match parse_version(raw) {
        Ok(v) => Ok(v),
        Err(_) => if requirement_parses(raw) {
            Err(ParseErrorKind::ToolVersionRequirement)
        } else {
            Err(ParseErrorKind::InvalidToolVersion)
        },
    }
}

/// Whether every selection name is non-empty and unpadded.
fn clean_names(names: &Vec<String>) -> (b: bool)
    ensures
        b == names_ok(names.deep_view()),
{
    let mut i: usize = 0;
    while i < names.len()
        invariant
            i <= names@.len(),
            forall|k: int| 0 <= k < i ==> trim(#[trigger] names.deep_view()[k]).len() > 0 && trim(names.deep_view()[k]) == names.deep_view()[k],
        decreases names@.len() - i,
    {
        let n = chars_of(names[i].as_str());
        let t = trimmed(&n);
        if t.len() == 0 || !same(&t, &n) {
            assert(!(trim(names.deep_view()[i as int]).len() > 0 && trim(names.deep_view()[i as int]) == names.deep_view()[i as int]));
            return false;
        }
        i = i + 1;
    }
    true
}

/// How deep the components `parts` lead, or `None` when a strict walk climbs
/// above its start.
fn depth_of(parts: &Vec<Text>, strict: bool) -> (r: Option<usize>)
    ensures
        match path_depth(parts.deep_view(), strict) {
            Some(d) => r matches Some(x) && x as nat == d,
            None => r is None,
        },
{
    let ghost ps = parts.deep_view();
    let mut depth: usize = 0;
    let mut i: usize = 0;
    assert(ps.take(0) =~= Seq::<Seq<char>>::empty());
    while i < parts.len()
        invariant
            ps == parts.deep_view(),
            i <= ps.len(),
            depth <= i,
            path_depth(ps.take(i as int), strict) == Some(depth as nat),
        decreases ps.len() - i,
    {
        assert(ps.take(i + 1).drop_last() == ps.take(i as int));
        assert(ps.take(i + 1).last() == parts[i as int]@);
        let p = &parts[i];
        if p.len() == 0 || is(p, ".") {
        } else if is(p, "..") {
            if depth > 0 {
                depth = depth - 1;
            } else if strict {
                proof {
                    lemma_depth_refusal_sticks(ps, strict, (i + 1) as int);
                }
                return None;
            }
        } else {
            depth = depth + 1;
        }
        i = i + 1;
    }
    assert(ps.take(ps.len() as int) == ps);
    Some(depth)
}

/// Once a strict walk has climbed out, the rest of the components keep it out.
proof fn lemma_depth_refusal_sticks(ps: Seq<Seq<char>>, strict: bool, i: int)
    requires
        0 <= i <= ps.len(),
        path_depth(ps.take(i), strict) is None,
    ensures
        path_depth(ps, strict) is None,
    decreases ps.len() - i,
{
    if i < ps.len() {
        assert(ps.take(i + 1).drop_last() == ps.take(i));
        lemma_depth_refusal_sticks(ps, strict, i + 1);
    } else {
        assert(ps.take(i) == ps);
    }
}

fn invalid_extra_file(reason: &str) -> (k: ParseErrorKind)
    ensures
        k@ == KindView::InvalidExtraFile(reason@),
{
    ParseErrorKind::InvalidExtraFile(reason.to_owned())
}

/// One declared extra file, checked.
fn check_extra_file(e: &ExtraFileEntry) -> (r: Result<ExtraFile, ParseErrorKind>)
    ensures
        match extra_file_outcome(e.path@, e.format, e.key@) {
            Ok(f) => r matches Ok(x) && x@ == f,
            Err(k) => r matches Err(x) && x@ == k,
        },
{
    let p = trimmed(&chars_of(e.path.as_str()));
    let rooted = p.len() > 0 && p[0] == '/';
    let relative = if rooted { crate::text::slice_of(&p, 1, p.len()) } else { crate::text::copy(&p) };
    proof {
        if rooted {
            assert(relative@ =~= p@.drop_first());
        }
    }
    let parts = split_on(&relative, '/');
    let depth = match depth_of(&parts, rooted) {
        Some(d) => d,
        None => return Err(invalid_extra_file("path must stay inside the repository")),
    };
    let lone_slash = p.len() == 1 && p[0] == '/';
    assert(lone_slash == (p@ == seq!['/'])) by {
        if p@ == seq!['/'] {
            assert(p@[0] == '/');
        }
        if lone_slash {
            assert(p@ =~= seq!['/']);
        }
    }
    if p.len() == 0 || lone_slash || depth == 0 {
        return Err(invalid_extra_file("path must be a non-empty relative path (not `/` alone)"));
    }
    let key = trimmed(&chars_of(e.key.as_str()));
    if key.len() == 0 {
        return Err(invalid_extra_file("key must not be empty"));
    }
    if let Some(reason) = key_path_refusal(&key) {
        return Err(invalid_extra_file(reason));
    }
    Ok(ExtraFile { path: string_of(&p), format: e.format, key: string_of(&key) })
}

/// One package table, checked: its extra files in order, then its publish
/// command.
fn check_package(p: &PackageDocument) -> (r: Result<PackageConfig, ParseErrorKind>)
    ensures
        match package_outcome(package_doc_view(*p)) {
            Ok(v) => r matches Ok(x) && x@ == v,
            Err(k) => r matches Err(x) && x@ == k,
        },
{
    let ghost es = p.extra_files@.map_values(|e: ExtraFileEntry| entry_view(e));
    let mut files: Vec<ExtraFile> = Vec::new();
    let mut i: usize = 0;
    assert(es.take(0) =~= Seq::<(Seq<char>, ExtraFileFormat, Seq<char>)>::empty());
    assert(extra_files_view(files@) =~= Seq::<ExtraFileView>::empty());
    while i < p.extra_files.len()
        invariant
            es == p.extra_files@.map_values(|e: ExtraFileEntry| entry_view(e)),
            i <= es.len(),
            extra_files_outcome(es.take(i as int)) == Ok::<Seq<ExtraFileView>, KindView>(extra_files_view(files@)),
        decreases es.len() - i,
    {
        assert(es.take(i + 1).drop_last() == es.take(i as int));
        assert(es.take(i + 1).last() == entry_view(p.extra_files@[i as int]));
        match check_extra_file(&p.extra_files[i]) {
            Ok(f) => {
                let ghost before = files@;
                files.push(f);
                assert(extra_files_view(files@) =~= extra_files_view(before).push(f@));
            },
            Err(k) => {
                proof {
                    lemma_extra_refusal_sticks(es, (i + 1) as int);
                }
                return Err(k);
            },
        }
        i = i + 1;
    }
    assert(es.take(es.len() as int) == es);
    let publish_command = match &p.publish_command {
        None => None,
        Some(raw) => {
            let t = trimmed(&chars_of(raw.as_str()));
            if t.len() == 0 {
                return Err(ParseErrorKind::EmptyPublishCommand);
            }
            Some(string_of(&t))
        },
    };
    Ok(PackageConfig {
        versioning: p.versioning,
        resolves_dependencies_at: p.resolves_dependencies_at,
        extra_files: files,
        publish_command,
    })
}

proof fn lemma_extra_refusal_sticks(es: Seq<(Seq<char>, ExtraFileFormat, Seq<char>)>, i: int)
    requires
        0 <= i <= es.len(),
        extra_files_outcome(es.take(i)) is Err,
    ensures
        extra_files_outcome(es) == extra_files_outcome(es.take(i)),
    decreases es.len() - i,
{
    if i < es.len() {
        assert(es.take(i + 1).drop_last() == es.take(i));
        lemma_extra_refusal_sticks(es, i + 1);
    } else {
        assert(es.take(i) == es);
    }
}

proof fn lemma_package_refusal_sticks(ps: Seq<(Seq<char>, PackageDocView)>, i: int)
    requires
        0 <= i <= ps.len(),
        packages_outcome(ps.take(i)) is Err,
    ensures
        packages_outcome(ps) == packages_outcome(ps.take(i)),
    decreases ps.len() - i,
{
    if i < ps.len() {
        assert(ps.take(i + 1).drop_last() == ps.take(i));
        lemma_package_refusal_sticks(ps, i + 1);
    } else {
        assert(ps.take(i) == ps);
    }
}

fn keep_nonempty(t: Option<TemplateSource>) -> (r: Option<TemplateSource>)
    ensures
        opt_template_view(r) == nonempty_template(opt_template_view(t)),
{
    match t {
        Some(TemplateSource::Inline(body)) => if body.as_str().is_empty() {
            None
        } else {
            Some(TemplateSource::Inline(body))
        },
        other => other,
    }
}

/// The source a template entry names; a command never reaches here.
fn source_entry(t: Option<TemplateEntry>) -> (r: Option<TemplateSource>)
    requires
        !(entry_template_view(t) matches Some(Err(_))),
    ensures
        opt_template_view(r) == source_of(entry_template_view(t)),
{
    match t {
        Some(TemplateEntry::Source(s)) => Some(s),
        _ => None,
    }
}

/// The configuration a read document holds, or the first reason it is
/// refused: a template asking for a command (located in `text`), an
/// inexact `tool-version` (located), both intent mechanisms off, an unclean
/// selection name, or a bad package table. Omitted keys take defaults.
pub fn from_document(text: &str, doc: ConfigDocument) -> (r: Result<OakumConfig, ParseError>)
    requires
        text@.len() + 2 < usize::MAX,
    ensures
        match config_outcome(text@, document_view(doc)) {
            Ok(c) => r matches Ok(x) && x@ == c,
            Err(e) => r matches Err(x) && x@ == e,
        },
{
    let ghost d = document_view(doc);
    let command = match (&doc.tag_format, &doc.commit_message, &doc.title, &doc.template) {
        (Some(TemplateEntry::Command { at }), _, _, _) => Some(*at),
        (_, Some(TemplateEntry::Command { at }), _, _) => Some(*at),
        (_, _, Some(TemplateEntry::Command { at }), _) => Some(*at),
        (_, _, _, Some(TemplateEntry::Command { at })) => Some(*at),
        _ => None,
    };
    if let Some(at) = command {
        let (line, column) = line_and_column(text, at);
        return Err(ParseError::located(ParseErrorKind::TemplateDoesNotExecute, line, column));
    }
    assert(first_command(d) is None);
    let change_files = match doc.change_files {
        Some(b) => b,
        None => true,
    };
    let conventional_commits = match doc.conventional_commits {
        Some(b) => b,
        None => true,
    };
    let tool_version = match exact_tool_version(doc.tool_version.as_str()) {
        Ok(v) => v,
        Err(kind) => {
            let (line, column) = line_and_column(text, doc.tool_version_at);
            return Err(ParseError::located(kind, line, column));
        },
    };
    if !change_files && !conventional_commits {
        return Err(ParseError::new(ParseErrorKind::BothIntentMechanismsDisabled));
    }
    if !clean_names(&doc.included) || !clean_names(&doc.exclude) {
        return Err(ParseError::new(ParseErrorKind::EmptySelectionName));
    }
    let ghost ps = d.packages;
    let mut packages: Vec<(String, PackageConfig)> = Vec::new();
    let mut i: usize = 0;
    assert(ps.take(0) =~= Seq::<(Seq<char>, PackageDocView)>::empty());
    assert(packages_view(packages@) =~= Seq::<(Seq<char>, PackageConfigView)>::empty());
    while i < doc.packages.len()
        invariant
            d == document_view(doc),
            ps == d.packages,
            exact_version(d.tool_version) == Ok::<VersionView, KindView>(tool_version@),
            first_command(d) is None,
            flag_or(d.change_files, true) || flag_or(d.conventional_commits, true),
            names_ok(d.included) && names_ok(d.exclude),
            ps == doc.packages@.map_values(|p: (String, PackageDocument)| (p.0@, package_doc_view(p.1))),
            i <= ps.len(),
            packages_outcome(ps.take(i as int)) == Ok::<Seq<(Seq<char>, PackageConfigView)>, KindView>(packages_view(packages@)),
        decreases ps.len() - i,
    {
        assert(ps.take(i + 1).drop_last() == ps.take(i as int));
        assert(ps.take(i + 1).last() == (doc.packages@[i as int].0@, package_doc_view(doc.packages@[i as int].1)));
        match check_package(&doc.packages[i].1) {
            Ok(pc) => {
                let ghost before = packages@;
                packages.push((doc.packages[i].0.clone(), pc));
                assert(packages_view(packages@) =~= packages_view(before).push((doc.packages@[i as int].0@, pc@)));
            },
            Err(kind) => {
                proof {
                    assert(packages_outcome(ps.take(i + 1)) == Err::<Seq<(Seq<char>, PackageConfigView)>, KindView>(kind@));
                    lemma_package_refusal_sticks(ps, (i + 1) as int);
                    assert(packages_outcome(d.packages) == Err::<Seq<(Seq<char>, PackageConfigView)>, KindView>(kind@));
                }
                return Err(ParseError::new(kind));
            },
        }
        i = i + 1;
    }
    assert(ps.take(ps.len() as int) == ps);
    let c = OakumConfig {
        tool_version: Some(tool_version),
        change_files,
        conventional_commits,
        versioning: match doc.versioning {
            Some(x) => x,
            None => Versioning::ZeroMajor,
        },
        pr_status: match doc.pr_status {
            Some(x) => x,
            None => PrStatus::Both,
        },
        tag_format: keep_nonempty(source_entry(doc.tag_format)),
        commit_message: keep_nonempty(source_entry(doc.commit_message)),
        title: keep_nonempty(source_entry(doc.title)),
        template: source_entry(doc.template),
        private_packages: match doc.private_packages {
            Some(p) => p,
            None => PrivatePackages::default(),
        },
        included: doc.included,
        exclude: doc.exclude,
        packages,
    };
    Ok(c)
}

/// Shown on `versioning` in `_schema.json`: editors surface it where
/// someone decides how a package reaches `1.0.0`.
pub const VERSIONING_DESCRIPTION: &'static str = "\
How a breaking change file moves a version. `zero-major` (default) maps a major \
file to a minor bump while the package is below 1.0.0, matching SemVer 2.0 §4. \
`semver` is how a project releases 1.0.0: the next major file produces 1.0.0, \
and the key is then inert for that package. Override per package under `[packages.<name>]` \
so one crate can graduate without taking the rest of the workspace with it.";

/// Exact version grammar (semver.org): no leading zeros; numeric
/// pre-release identifiers cannot be `01`.
pub const TOOL_VERSION_PATTERN: &'static str = "\
^(0|[1-9][0-9]*)\\.(0|[1-9][0-9]*)\\.(0|[1-9][0-9]*)\
(?:-((?:0|[1-9][0-9]*|[0-9]*[a-zA-Z-][0-9A-Za-z-]*)(?:\\.(?:0|[1-9][0-9]*|[0-9]*[a-zA-Z-][0-9A-Za-z-]*))*))?\
(?:\\+([0-9A-Za-z-]+(?:\\.[0-9A-Za-z-]+)*))?$";

/// Whether `v` is the string `s`.
pub open spec fn text_is(v: DocValue, s: Seq<char>) -> bool {
    match v {
        DocValue::Text(t) => t@ == s,
        _ => false,
    }
}

/// The strings a list holds, in order (a non-string item reads as empty).
pub open spec fn list_texts(v: DocValue) -> Seq<Seq<char>> {
    match v {
        DocValue::List(items) => items@.map_values(|i: DocValue| match i {
            DocValue::Text(t) => t@,
            _ => Seq::empty(),
        }),
        _ => Seq::empty(),
    }
}

/// Whether `v` is a table whose entry at `i` is `key`, holding a list of
/// exactly `ws`.
pub open spec fn lists_at(v: DocValue, i: int, key: Seq<char>, ws: Seq<Seq<char>>) -> bool {
    &&& v matches DocValue::Table(es)
    &&& 0 <= i < es@.len() && es@[i].0@ == key && es@[i].1 is List && list_texts(es@[i].1) == ws
}

/// The keys of a table, in order.
pub open spec fn entry_keys(es: Seq<(String, DocValue)>) -> Seq<Seq<char>> {
    es.map_values(|e: (String, DocValue)| e.0@)
}

/// Every key `_config.toml` accepts at its top level, in byte order.
pub open spec fn config_keys() -> Seq<Seq<char>> {
    seq![
        "change-files"@, "commit-message"@, "conventional-commits"@, "exclude"@, "include"@, "packages"@,
        "pr-status"@, "private-packages"@, "tag-format"@, "template"@, "title"@, "tool-version"@, "versioning"@,
    ]
}

/// Whether `v` is a table whose entry at `i` is `key`, holding `value`.
pub open spec fn entry_is(v: DocValue, i: int, key: Seq<char>, value: DocValue) -> bool {
    &&& v matches DocValue::Table(es)
    &&& 0 <= i < es@.len() && es@[i].0@ == key && es@[i].1 == value
}

/// Whether `v` is a table whose entry at `i` is `key`, holding the string
/// `text`.
pub open spec fn entry_text(v: DocValue, i: int, key: Seq<char>, text: Seq<char>) -> bool {
    &&& v matches DocValue::Table(es)
    &&& 0 <= i < es@.len() && es@[i].0@ == key && text_is(es@[i].1, text)
}

/// Whether `v` is a table whose entry at `i` is `key`, holding `[]`.
pub open spec fn entry_empty_list(v: DocValue, i: int, key: Seq<char>) -> bool {
    &&& v matches DocValue::Table(es)
    &&& 0 <= i < es@.len() && es@[i].0@ == key
    &&& es@[i].1 matches DocValue::List(l) && l@.len() == 0
}

/// `{ "const": false }`.
pub open spec fn const_false(v: DocValue) -> bool {
    &&& v matches DocValue::Table(es)
    &&& es@.len() == 1 && es@[0].0@ == "const"@ && es@[0].1 == DocValue::Flag(false)
}

/// The condition that both intent mechanisms are off: `change-files` and
/// `conventional-commits` both present and both `false`.
pub open spec fn both_intents_off(v: DocValue) -> bool {
    &&& v matches DocValue::Table(c)
    &&& entry_keys(c@) == seq!["properties"@, "required"@]
    &&& c@[0].1 matches DocValue::Table(ps) && entry_keys(ps@) == seq!["change-files"@, "conventional-commits"@]
        && const_false(ps@[0].1) && const_false(ps@[1].1)
    &&& c@[1].1 is List && list_texts(c@[1].1) == seq!["change-files"@, "conventional-commits"@]
}

/// The schema's defaults for the properties (in `config_keys` order) agree
/// with what the reader gives an omitted key, and `tool-version` carries
/// the exact-version pattern.
pub open spec fn schema_defaults(props: Seq<(String, DocValue)>) -> bool {
    let d = defaults_view();
    &&& props.len() == 13
    &&& entry_is(props[0].1, 0, "default"@, DocValue::Flag(d.change_files))
    &&& entry_is(props[2].1, 0, "default"@, DocValue::Flag(d.conventional_commits))
    &&& entry_empty_list(props[3].1, 0, "default"@) && d.exclude.len() == 0
    &&& entry_empty_list(props[4].1, 0, "default"@) && d.included.len() == 0
    &&& entry_text(props[6].1, 0, "default"@, pr_status_word(d.pr_status))
    &&& props[7].1 matches DocValue::Table(pp) && pp@.len() > 1 && pp@[1].0@ == "default"@
        && entry_is(pp@[1].1, 0, "tag"@, DocValue::Flag(d.private_packages.1))
        && entry_is(pp@[1].1, 1, "version"@, DocValue::Flag(d.private_packages.0))
    &&& entry_text(props[11].1, 1, "pattern"@, TOOL_VERSION_PATTERN@)
    &&& entry_text(props[12].1, 0, "default"@, versioning_word(d.versioning))
}

/// What the schema promises of a config: an object that names every key
/// the reader accepts, refuses any other, requires `tool-version`, refuses
/// both intent mechanisms off (its `then` is `false`), and offers for
/// `pr-status` and `versioning` exactly the words the reader accepts.
pub open spec fn is_config_schema(v: DocValue) -> bool {
    &&& v matches DocValue::Table(top)
    &&& entry_keys(top@) == seq![
        "$schema"@, "additionalProperties"@, "if"@, "properties"@, "required"@, "then"@, "title"@, "type"@,
    ]
    &&& top@[1].1 == DocValue::Flag(false)
    &&& top@[3].1 matches DocValue::Table(props) && entry_keys(props@) == config_keys()
    &&& top@[4].1 matches DocValue::List(required) && required@.len() == 1 && text_is(required@[0], "tool-version"@)
    &&& top@[5].1 == DocValue::Flag(false)
    &&& both_intents_off(top@[2].1)
    &&& top@[3].1 matches DocValue::Table(props) && schema_defaults(props@)
    &&& top@[3].1 matches DocValue::Table(props) && lists_at(props@[6].1, 2, "enum"@, seq![
        pr_status_word(PrStatus::Comment), pr_status_word(PrStatus::Summary), pr_status_word(PrStatus::Both),
        pr_status_word(PrStatus::Off),
    ]) && lists_at(props@[12].1, 2, "enum"@, seq![
        versioning_word(Versioning::ZeroMajor), versioning_word(Versioning::Semver),
    ])
}

fn owned(s: &str) -> (t: String)
    ensures
        t@ == s@,
{
    s.to_owned()
}

fn sv(s: &str) -> (v: DocValue)
    ensures
        v matches DocValue::Text(t) && t@ == s@,
{
    DocValue::Text(owned(s))
}

fn kv(k: &str, v: DocValue) -> (e: (String, DocValue))
    ensures
        e.0@ == k@,
        e.1 == v,
{
    (owned(k), v)
}

/// A description `_schema.json` shows.
pub const TOOL_VERSION_DOC: &'static str = "Exact oakum version allowed to run this repository (never a range). A mismatch refuses in both directions; `upgrade` is the exception (ADR-0007).";

/// A description `_schema.json` shows.
pub const CHANGE_FILES_DOC: &'static str = "When true, the plan reads `.changeset/*.md`.";

/// A description `_schema.json` shows.
pub const CONVENTIONAL_COMMITS_DOC: &'static str = "When true, commits can feed `generate`, and the plan if change-files is off (ADR-0029).";

/// A description `_schema.json` shows.
pub const PR_STATUS_DOC: &'static str = "Pull-request presentation. `none` silences comment and summary; the exit-code gate is not configurable (ADR-0015).";

/// A description `_schema.json` shows.
pub const TAG_FORMAT_DOC: &'static str = "Tag oakum writes. Receives `package` and `version`. A string is inline; `{ file = \"path\" }` loads a repository-relative file. Existing tags are derived, not configured (ADR-0004).";

/// A description `_schema.json` shows.
pub const COMMIT_MESSAGE_DOC: &'static str = "Commit message for the version commit. Receives the `oakum status --json` document: `coverage`, `manages_nothing`, `packages`, `schema_version`, `selection_empty`, `target`, `uncovered`, `unmanaged`. A string is inline; `{ file = \"path\" }` loads a repository-relative file. Templates render; they do not execute (ADR-0006).";

/// A description `_schema.json` shows.
pub const TITLE_DOC: &'static str = "Title for the version pull request. Receives the `oakum status --json` document: `coverage`, `manages_nothing`, `packages`, `schema_version`, `selection_empty`, `target`, `uncovered`, `unmanaged`. A string is inline; `{ file = \"path\" }` loads a repository-relative file. One template per surface, with conditionals in the body (ADR-0015).";

/// A description `_schema.json` shows.
pub const TEMPLATE_DOC: &'static str = "Changelog template, rendered once per package section. Receives `bump`, `changes`, `date`, `ecosystem`, `notes`, `package`, `repo`, `source`, `target`, `tool_version`, `trigger`, `version`. A string is inline; `{ file = \"path\" }` loads a repository-relative file. Templates render; they do not execute (ADR-0006).";

/// A description `_schema.json` shows.
pub const PRIVATE_PACKAGES_DOC: &'static str = "Opt-in to version and/or tag packages that are not registry-publishable. Axes are independent (ADR-0027).";

/// A description `_schema.json` shows.
pub const PRIVATE_VERSION_DOC: &'static str = "When true, unpublishable packages still receive version bumps and changelogs.";

/// A description `_schema.json` shows.
pub const PRIVATE_TAG_DOC: &'static str = "When true, unpublishable packages still receive git tags.";

/// A description `_schema.json` shows.
pub const INCLUDE_DOC: &'static str = "Exact package names to manage. Empty means all packages; then exclude removes (ADR-0027).";

/// A description `_schema.json` shows.
pub const EXCLUDE_DOC: &'static str = "Exact package names to leave alone after include filtering (ADR-0027).";

/// A description `_schema.json` shows.
pub const PACKAGES_DOC: &'static str = "Per-package overrides, keyed by the name the manifest declares.";

/// A description `_schema.json` shows.
pub const RESOLVES_DOC: &'static str = "Declare that this library bundles dependencies into the published artifact. Binaries are derived; `install` is not configurable (ADR-0009).";

/// A description `_schema.json` shows.
pub const PUBLISH_COMMAND_DOC: &'static str = "Stored publish command for a post-v0 registry slot. Never executed in v0 (ADR-0011 / ADR-0012).";

/// A description `_schema.json` shows.
pub const EXTRA_FILES_DOC: &'static str = "Declared version writes outside the package manifest (ADR-0033).";

/// A description `_schema.json` shows.
pub const EXTRA_PATH_DOC: &'static str = "Leading `/` is repository-root relative; otherwise relative to the package manifest directory.";

/// A description `_schema.json` shows.
pub const EXTRA_FORMAT_DOC: &'static str = "Document format. v1 ships json only.";

/// A description `_schema.json` shows.
pub const EXTRA_KEY_DOC: &'static str = "Dotted key path. `{field=value}` selects a unique array element (ADR-0033).";


/// The tree `name_items` builds.
pub open spec fn name_items_tree() -> DocTree {
    DocTree::Table(seq![("minLength"@, DocTree::Other("1"@)), ("pattern"@, DocTree::Text(".*\\S.*"@)), ("type"@, DocTree::Text("string"@))])
}

/// The tree `flag_schema` builds.
pub open spec fn flag_tree(default: bool, description: Seq<char>) -> DocTree {
    DocTree::Table(seq![("default"@, DocTree::Flag(default)), ("description"@, DocTree::Text(description)), ("type"@, DocTree::Text("boolean"@))])
}

/// The tree `names_schema` builds.
pub open spec fn names_tree(description: Seq<char>) -> DocTree {
    DocTree::Table(seq![("default"@, DocTree::List(Seq::empty())), ("description"@, DocTree::Text(description)), ("items"@, name_items_tree()), ("type"@, DocTree::Text("array"@))])
}

/// The tree `template_source_schema` builds.
pub open spec fn template_source_tree(description: Seq<char>) -> DocTree {
    DocTree::Table(seq![("description"@, DocTree::Text(description)), ("oneOf"@, DocTree::List(seq![DocTree::Table(seq![("type"@, DocTree::Text("string"@))]), DocTree::Table(seq![("additionalProperties"@, DocTree::Flag(false)), ("properties"@, DocTree::Table(seq![("file"@, name_items_tree())])), ("required"@, DocTree::List(seq![DocTree::Text("file"@)])), ("type"@, DocTree::Text("object"@))])]))])
}

/// The tree `extra_files_schema` builds.
pub open spec fn extra_files_tree() -> DocTree {
    DocTree::Table(seq![("description"@, DocTree::Text(EXTRA_FILES_DOC@)), ("items"@, DocTree::Table(seq![("additionalProperties"@, DocTree::Flag(false)), ("properties"@, DocTree::Table(seq![("format"@, DocTree::Table(seq![("description"@, DocTree::Text(EXTRA_FORMAT_DOC@)), ("enum"@, DocTree::List(seq![DocTree::Text("json"@)])), ("type"@, DocTree::Text("string"@))])), ("key"@, DocTree::Table(seq![("description"@, DocTree::Text(EXTRA_KEY_DOC@)), ("minLength"@, DocTree::Other("1"@)), ("type"@, DocTree::Text("string"@))])), ("path"@, DocTree::Table(seq![("description"@, DocTree::Text(EXTRA_PATH_DOC@)), ("minLength"@, DocTree::Other("1"@)), ("type"@, DocTree::Text("string"@))]))])), ("required"@, DocTree::List(seq![DocTree::Text("path"@), DocTree::Text("format"@), DocTree::Text("key"@)])), ("type"@, DocTree::Text("object"@))])), ("type"@, DocTree::Text("array"@))])
}

/// The tree `package_schema` builds.
pub open spec fn package_tree() -> DocTree {
    DocTree::Table(seq![("description"@, DocTree::Text(PACKAGES_DOC@)), ("additionalProperties"@, DocTree::Table(seq![("additionalProperties"@, DocTree::Flag(false)), ("properties"@, DocTree::Table(seq![("extra-files"@, extra_files_tree()), ("publish-command"@, DocTree::Table(seq![("description"@, DocTree::Text(PUBLISH_COMMAND_DOC@)), ("minLength"@, DocTree::Other("1"@)), ("pattern"@, DocTree::Text(".*\\S.*"@)), ("type"@, DocTree::Text("string"@))])), ("resolves-dependencies-at"@, DocTree::Table(seq![("description"@, DocTree::Text(RESOLVES_DOC@)), ("enum"@, DocTree::List(seq![DocTree::Text("build"@)])), ("type"@, DocTree::Text("string"@))])), ("versioning"@, versioning_tree(false))])), ("type"@, DocTree::Text("object"@))])), ("type"@, DocTree::Text("object"@))])
}

/// The tree `private_packages_schema` builds.
pub open spec fn private_packages_tree() -> DocTree {
    DocTree::Table(seq![("additionalProperties"@, DocTree::Flag(false)), ("default"@, DocTree::Table(seq![("tag"@, DocTree::Flag(false)), ("version"@, DocTree::Flag(false))])), ("description"@, DocTree::Text(PRIVATE_PACKAGES_DOC@)), ("properties"@, DocTree::Table(seq![("tag"@, flag_tree(false, PRIVATE_TAG_DOC@)), ("version"@, flag_tree(false, PRIVATE_VERSION_DOC@))])), ("type"@, DocTree::Text("object"@))])
}

/// `versioning` as the schema offers it: with `zero-major` as its default
/// at the top level, without one per package.
pub open spec fn versioning_tree(with_default: bool) -> DocTree {
    let rest = seq![
        ("description"@, DocTree::Text(VERSIONING_DESCRIPTION@)),
        ("enum"@, DocTree::List(seq![DocTree::Text("zero-major"@), DocTree::Text("semver"@)])),
        ("type"@, DocTree::Text("string"@)),
    ];
    DocTree::Table(if with_default { seq![("default"@, DocTree::Text("zero-major"@))] + rest } else { rest })
}

/// The JSON Schema for `_config.toml`, whole: every key the reader takes,
/// each property's type, default and allowed words, the refusal of any other
/// key at the top, in `private-packages`, in a package's table, in an
/// extra-file entry and in a `{ file = … }` template, and the rule that both
/// intent mechanisms cannot be off.
pub open spec fn config_schema() -> DocTree {
    DocTree::Table(seq![("$schema"@, DocTree::Text("https://json-schema.org/draft-07/schema#"@)), ("additionalProperties"@, DocTree::Flag(false)), ("if"@, DocTree::Table(seq![("properties"@, DocTree::Table(seq![("change-files"@, DocTree::Table(seq![("const"@, DocTree::Flag(false))])), ("conventional-commits"@, DocTree::Table(seq![("const"@, DocTree::Flag(false))]))])), ("required"@, DocTree::List(seq![DocTree::Text("change-files"@), DocTree::Text("conventional-commits"@)]))])), ("properties"@, DocTree::Table(seq![("change-files"@, flag_tree(true, CHANGE_FILES_DOC@)), ("commit-message"@, template_source_tree(COMMIT_MESSAGE_DOC@)), ("conventional-commits"@, flag_tree(true, CONVENTIONAL_COMMITS_DOC@)), ("exclude"@, names_tree(EXCLUDE_DOC@)), ("include"@, names_tree(INCLUDE_DOC@)), ("packages"@, package_tree()), ("pr-status"@, DocTree::Table(seq![("default"@, DocTree::Text("both"@)), ("description"@, DocTree::Text(PR_STATUS_DOC@)), ("enum"@, DocTree::List(seq![DocTree::Text("comment"@), DocTree::Text("summary"@), DocTree::Text("both"@), DocTree::Text("none"@)])), ("type"@, DocTree::Text("string"@))])), ("private-packages"@, private_packages_tree()), ("tag-format"@, template_source_tree(TAG_FORMAT_DOC@)), ("template"@, template_source_tree(TEMPLATE_DOC@)), ("title"@, template_source_tree(TITLE_DOC@)), ("tool-version"@, DocTree::Table(seq![("description"@, DocTree::Text(TOOL_VERSION_DOC@)), ("pattern"@, DocTree::Text(TOOL_VERSION_PATTERN@)), ("type"@, DocTree::Text("string"@))])), ("versioning"@, versioning_tree(true))])), ("required"@, DocTree::List(seq![DocTree::Text("tool-version"@)])), ("then"@, DocTree::Flag(false)), ("title"@, DocTree::Text("oakum _config.toml"@)), ("type"@, DocTree::Text("object"@))])
}

fn name_items() -> (v: DocValue)
    ensures
        doc_tree(v) == name_items_tree(),
{
    let t1: Vec<(String, DocValue)> = vec![
        kv("minLength", DocValue::Other(owned("1"))),
        kv("pattern", sv(".*\\S.*")),
        kv("type", sv("string")),
    ];
    proof {
        lemma_table_doc_tree(t1);
        assert(t1@.map_values(|e: (String, DocValue)| entry_tree(e)) =~= seq![("minLength"@, DocTree::Other("1"@)), ("pattern"@, DocTree::Text(".*\\S.*"@)), ("type"@, DocTree::Text("string"@))]);
    }
    DocValue::Table(t1)
}

fn flag_schema(default: bool, description: &str) -> (v: DocValue)
    ensures
        doc_tree(v) == flag_tree(default, description@),
        entry_is(v, 0, "default"@, DocValue::Flag(default)),
{
    let t1: Vec<(String, DocValue)> = vec![
        kv("default", DocValue::Flag(default)),
        kv("description", sv(description)),
        kv("type", sv("boolean")),
    ];
    proof {
        lemma_table_doc_tree(t1);
        assert(t1@.map_values(|e: (String, DocValue)| entry_tree(e)) =~= seq![("default"@, DocTree::Flag(default)), ("description"@, DocTree::Text(description@)), ("type"@, DocTree::Text("boolean"@))]);
    }
    DocValue::Table(t1)
}

fn names_schema(description: &str) -> (v: DocValue)
    ensures
        doc_tree(v) == names_tree(description@),
        entry_empty_list(v, 0, "default"@),
{
    let l1: Vec<DocValue> = Vec::new();
    let t2: Vec<(String, DocValue)> = vec![
        kv("default", DocValue::List(l1)),
        kv("description", sv(description)),
        kv("items", name_items()),
        kv("type", sv("array")),
    ];
    proof {
        lemma_list_doc_tree(l1);
        assert(l1@.map_values(|x: DocValue| doc_tree(x)) =~= Seq::<DocTree>::empty());
        lemma_table_doc_tree(t2);
        assert(t2@.map_values(|e: (String, DocValue)| entry_tree(e)) =~= seq![("default"@, DocTree::List(Seq::empty())), ("description"@, DocTree::Text(description@)), ("items"@, name_items_tree()), ("type"@, DocTree::Text("array"@))]);
    }
    DocValue::Table(t2)
}

fn template_source_schema(description: &str) -> (v: DocValue)
    ensures
        doc_tree(v) == template_source_tree(description@),
{
    let t1: Vec<(String, DocValue)> = vec![
        kv("type", sv("string")),
    ];
    let t2: Vec<(String, DocValue)> = vec![
        kv("file", name_items()),
    ];
    let l3: Vec<DocValue> = vec![sv("file")];
    let t4: Vec<(String, DocValue)> = vec![
        kv("additionalProperties", DocValue::Flag(false)),
        kv("properties", DocValue::Table(t2)),
        kv("required", DocValue::List(l3)),
        kv("type", sv("object")),
    ];
    let l5: Vec<DocValue> = vec![DocValue::Table(t1), DocValue::Table(t4)];
    let t6: Vec<(String, DocValue)> = vec![
        kv("description", sv(description)),
        kv("oneOf", DocValue::List(l5)),
    ];
    proof {
        lemma_table_doc_tree(t1);
        assert(t1@.map_values(|e: (String, DocValue)| entry_tree(e)) =~= seq![("type"@, DocTree::Text("string"@))]);
        lemma_table_doc_tree(t2);
        assert(t2@.map_values(|e: (String, DocValue)| entry_tree(e)) =~= seq![("file"@, name_items_tree())]);
        lemma_list_doc_tree(l3);
        assert(l3@.map_values(|x: DocValue| doc_tree(x)) =~= seq![DocTree::Text("file"@)]);
        lemma_table_doc_tree(t4);
        assert(t4@.map_values(|e: (String, DocValue)| entry_tree(e)) =~= seq![("additionalProperties"@, DocTree::Flag(false)), ("properties"@, DocTree::Table(seq![("file"@, name_items_tree())])), ("required"@, DocTree::List(seq![DocTree::Text("file"@)])), ("type"@, DocTree::Text("object"@))]);
        lemma_list_doc_tree(l5);
        assert(l5@.map_values(|x: DocValue| doc_tree(x)) =~= seq![DocTree::Table(seq![("type"@, DocTree::Text("string"@))]), DocTree::Table(seq![("additionalProperties"@, DocTree::Flag(false)), ("properties"@, DocTree::Table(seq![("file"@, name_items_tree())])), ("required"@, DocTree::List(seq![DocTree::Text("file"@)])), ("type"@, DocTree::Text("object"@))])]);
        lemma_table_doc_tree(t6);
        assert(t6@.map_values(|e: (String, DocValue)| entry_tree(e)) =~= seq![("description"@, DocTree::Text(description@)), ("oneOf"@, DocTree::List(seq![DocTree::Table(seq![("type"@, DocTree::Text("string"@))]), DocTree::Table(seq![("additionalProperties"@, DocTree::Flag(false)), ("properties"@, DocTree::Table(seq![("file"@, name_items_tree())])), ("required"@, DocTree::List(seq![DocTree::Text("file"@)])), ("type"@, DocTree::Text("object"@))])]))]);
    }
    DocValue::Table(t6)
}

fn extra_files_schema() -> (v: DocValue)
    ensures
        doc_tree(v) == extra_files_tree(),
{
    let l1: Vec<DocValue> = vec![sv("json")];
    let t2: Vec<(String, DocValue)> = vec![
        kv("description", sv(EXTRA_FORMAT_DOC)),
        kv("enum", DocValue::List(l1)),
        kv("type", sv("string")),
    ];
    let t3: Vec<(String, DocValue)> = vec![
        kv("description", sv(EXTRA_KEY_DOC)),
        kv("minLength", DocValue::Other(owned("1"))),
        kv("type", sv("string")),
    ];
    let t4: Vec<(String, DocValue)> = vec![
        kv("description", sv(EXTRA_PATH_DOC)),
        kv("minLength", DocValue::Other(owned("1"))),
        kv("type", sv("string")),
    ];
    let t5: Vec<(String, DocValue)> = vec![
        kv("format", DocValue::Table(t2)),
        kv("key", DocValue::Table(t3)),
        kv("path", DocValue::Table(t4)),
    ];
    let l6: Vec<DocValue> = vec![sv("path"), sv("format"), sv("key")];
    let t7: Vec<(String, DocValue)> = vec![
        kv("additionalProperties", DocValue::Flag(false)),
        kv("properties", DocValue::Table(t5)),
        kv("required", DocValue::List(l6)),
        kv("type", sv("object")),
    ];
    let t8: Vec<(String, DocValue)> = vec![
        kv("description", sv(EXTRA_FILES_DOC)),
        kv("items", DocValue::Table(t7)),
        kv("type", sv("array")),
    ];
    proof {
        lemma_list_doc_tree(l1);
        assert(l1@.map_values(|x: DocValue| doc_tree(x)) =~= seq![DocTree::Text("json"@)]);
        lemma_table_doc_tree(t2);
        assert(t2@.map_values(|e: (String, DocValue)| entry_tree(e)) =~= seq![("description"@, DocTree::Text(EXTRA_FORMAT_DOC@)), ("enum"@, DocTree::List(seq![DocTree::Text("json"@)])), ("type"@, DocTree::Text("string"@))]);
        lemma_table_doc_tree(t3);
        assert(t3@.map_values(|e: (String, DocValue)| entry_tree(e)) =~= seq![("description"@, DocTree::Text(EXTRA_KEY_DOC@)), ("minLength"@, DocTree::Other("1"@)), ("type"@, DocTree::Text("string"@))]);
        lemma_table_doc_tree(t4);
        assert(t4@.map_values(|e: (String, DocValue)| entry_tree(e)) =~= seq![("description"@, DocTree::Text(EXTRA_PATH_DOC@)), ("minLength"@, DocTree::Other("1"@)), ("type"@, DocTree::Text("string"@))]);
        lemma_table_doc_tree(t5);
        assert(t5@.map_values(|e: (String, DocValue)| entry_tree(e)) =~= seq![("format"@, DocTree::Table(seq![("description"@, DocTree::Text(EXTRA_FORMAT_DOC@)), ("enum"@, DocTree::List(seq![DocTree::Text("json"@)])), ("type"@, DocTree::Text("string"@))])), ("key"@, DocTree::Table(seq![("description"@, DocTree::Text(EXTRA_KEY_DOC@)), ("minLength"@, DocTree::Other("1"@)), ("type"@, DocTree::Text("string"@))])), ("path"@, DocTree::Table(seq![("description"@, DocTree::Text(EXTRA_PATH_DOC@)), ("minLength"@, DocTree::Other("1"@)), ("type"@, DocTree::Text("string"@))]))]);
        lemma_list_doc_tree(l6);
        assert(l6@.map_values(|x: DocValue| doc_tree(x)) =~= seq![DocTree::Text("path"@), DocTree::Text("format"@), DocTree::Text("key"@)]);
        lemma_table_doc_tree(t7);
        assert(t7@.map_values(|e: (String, DocValue)| entry_tree(e)) =~= seq![("additionalProperties"@, DocTree::Flag(false)), ("properties"@, DocTree::Table(seq![("format"@, DocTree::Table(seq![("description"@, DocTree::Text(EXTRA_FORMAT_DOC@)), ("enum"@, DocTree::List(seq![DocTree::Text("json"@)])), ("type"@, DocTree::Text("string"@))])), ("key"@, DocTree::Table(seq![("description"@, DocTree::Text(EXTRA_KEY_DOC@)), ("minLength"@, DocTree::Other("1"@)), ("type"@, DocTree::Text("string"@))])), ("path"@, DocTree::Table(seq![("description"@, DocTree::Text(EXTRA_PATH_DOC@)), ("minLength"@, DocTree::Other("1"@)), ("type"@, DocTree::Text("string"@))]))])), ("required"@, DocTree::List(seq![DocTree::Text("path"@), DocTree::Text("format"@), DocTree::Text("key"@)])), ("type"@, DocTree::Text("object"@))]);
        lemma_table_doc_tree(t8);
        assert(t8@.map_values(|e: (String, DocValue)| entry_tree(e)) =~= seq![("description"@, DocTree::Text(EXTRA_FILES_DOC@)), ("items"@, DocTree::Table(seq![("additionalProperties"@, DocTree::Flag(false)), ("properties"@, DocTree::Table(seq![("format"@, DocTree::Table(seq![("description"@, DocTree::Text(EXTRA_FORMAT_DOC@)), ("enum"@, DocTree::List(seq![DocTree::Text("json"@)])), ("type"@, DocTree::Text("string"@))])), ("key"@, DocTree::Table(seq![("description"@, DocTree::Text(EXTRA_KEY_DOC@)), ("minLength"@, DocTree::Other("1"@)), ("type"@, DocTree::Text("string"@))])), ("path"@, DocTree::Table(seq![("description"@, DocTree::Text(EXTRA_PATH_DOC@)), ("minLength"@, DocTree::Other("1"@)), ("type"@, DocTree::Text("string"@))]))])), ("required"@, DocTree::List(seq![DocTree::Text("path"@), DocTree::Text("format"@), DocTree::Text("key"@)])), ("type"@, DocTree::Text("object"@))])), ("type"@, DocTree::Text("array"@))]);
    }
    DocValue::Table(t8)
}

fn package_schema() -> (v: DocValue)
    ensures
        doc_tree(v) == package_tree(),
{
    let t1: Vec<(String, DocValue)> = vec![
        kv("description", sv(PUBLISH_COMMAND_DOC)),
        kv("minLength", DocValue::Other(owned("1"))),
        kv("pattern", sv(".*\\S.*")),
        kv("type", sv("string")),
    ];
    let l2: Vec<DocValue> = vec![sv("build")];
    let t3: Vec<(String, DocValue)> = vec![
        kv("description", sv(RESOLVES_DOC)),
        kv("enum", DocValue::List(l2)),
        kv("type", sv("string")),
    ];
    let t4: Vec<(String, DocValue)> = vec![
        kv("extra-files", extra_files_schema()),
        kv("publish-command", DocValue::Table(t1)),
        kv("resolves-dependencies-at", DocValue::Table(t3)),
        kv("versioning", versioning_schema(false)),
    ];
    let t5: Vec<(String, DocValue)> = vec![
        kv("additionalProperties", DocValue::Flag(false)),
        kv("properties", DocValue::Table(t4)),
        kv("type", sv("object")),
    ];
    let t6: Vec<(String, DocValue)> = vec![
        kv("description", sv(PACKAGES_DOC)),
        kv("additionalProperties", DocValue::Table(t5)),
        kv("type", sv("object")),
    ];
    proof {
        lemma_table_doc_tree(t1);
        assert(t1@.map_values(|e: (String, DocValue)| entry_tree(e)) =~= seq![("description"@, DocTree::Text(PUBLISH_COMMAND_DOC@)), ("minLength"@, DocTree::Other("1"@)), ("pattern"@, DocTree::Text(".*\\S.*"@)), ("type"@, DocTree::Text("string"@))]);
        lemma_list_doc_tree(l2);
        assert(l2@.map_values(|x: DocValue| doc_tree(x)) =~= seq![DocTree::Text("build"@)]);
        lemma_table_doc_tree(t3);
        assert(t3@.map_values(|e: (String, DocValue)| entry_tree(e)) =~= seq![("description"@, DocTree::Text(RESOLVES_DOC@)), ("enum"@, DocTree::List(seq![DocTree::Text("build"@)])), ("type"@, DocTree::Text("string"@))]);
        lemma_table_doc_tree(t4);
        assert(t4@.map_values(|e: (String, DocValue)| entry_tree(e)) =~= seq![("extra-files"@, extra_files_tree()), ("publish-command"@, DocTree::Table(seq![("description"@, DocTree::Text(PUBLISH_COMMAND_DOC@)), ("minLength"@, DocTree::Other("1"@)), ("pattern"@, DocTree::Text(".*\\S.*"@)), ("type"@, DocTree::Text("string"@))])), ("resolves-dependencies-at"@, DocTree::Table(seq![("description"@, DocTree::Text(RESOLVES_DOC@)), ("enum"@, DocTree::List(seq![DocTree::Text("build"@)])), ("type"@, DocTree::Text("string"@))])), ("versioning"@, versioning_tree(false))]);
        lemma_table_doc_tree(t5);
        assert(t5@.map_values(|e: (String, DocValue)| entry_tree(e)) =~= seq![("additionalProperties"@, DocTree::Flag(false)), ("properties"@, DocTree::Table(seq![("extra-files"@, extra_files_tree()), ("publish-command"@, DocTree::Table(seq![("description"@, DocTree::Text(PUBLISH_COMMAND_DOC@)), ("minLength"@, DocTree::Other("1"@)), ("pattern"@, DocTree::Text(".*\\S.*"@)), ("type"@, DocTree::Text("string"@))])), ("resolves-dependencies-at"@, DocTree::Table(seq![("description"@, DocTree::Text(RESOLVES_DOC@)), ("enum"@, DocTree::List(seq![DocTree::Text("build"@)])), ("type"@, DocTree::Text("string"@))])), ("versioning"@, versioning_tree(false))])), ("type"@, DocTree::Text("object"@))]);
        lemma_table_doc_tree(t6);
        assert(t6@.map_values(|e: (String, DocValue)| entry_tree(e)) =~= seq![("description"@, DocTree::Text(PACKAGES_DOC@)), ("additionalProperties"@, DocTree::Table(seq![("additionalProperties"@, DocTree::Flag(false)), ("properties"@, DocTree::Table(seq![("extra-files"@, extra_files_tree()), ("publish-command"@, DocTree::Table(seq![("description"@, DocTree::Text(PUBLISH_COMMAND_DOC@)), ("minLength"@, DocTree::Other("1"@)), ("pattern"@, DocTree::Text(".*\\S.*"@)), ("type"@, DocTree::Text("string"@))])), ("resolves-dependencies-at"@, DocTree::Table(seq![("description"@, DocTree::Text(RESOLVES_DOC@)), ("enum"@, DocTree::List(seq![DocTree::Text("build"@)])), ("type"@, DocTree::Text("string"@))])), ("versioning"@, versioning_tree(false))])), ("type"@, DocTree::Text("object"@))])), ("type"@, DocTree::Text("object"@))]);
    }
    DocValue::Table(t6)
}

fn private_packages_schema() -> (v: DocValue)
    ensures
        doc_tree(v) == private_packages_tree(),
        v matches DocValue::Table(pp) && pp@.len() > 1 && pp@[1].0@ == "default"@
            && entry_is(pp@[1].1, 0, "tag"@, DocValue::Flag(false))
            && entry_is(pp@[1].1, 1, "version"@, DocValue::Flag(false)),
{
    let t1: Vec<(String, DocValue)> = vec![
        kv("tag", DocValue::Flag(false)),
        kv("version", DocValue::Flag(false)),
    ];
    let t2: Vec<(String, DocValue)> = vec![
        kv("tag", flag_schema(false, PRIVATE_TAG_DOC)),
        kv("version", flag_schema(false, PRIVATE_VERSION_DOC)),
    ];
    let t3: Vec<(String, DocValue)> = vec![
        kv("additionalProperties", DocValue::Flag(false)),
        kv("default", DocValue::Table(t1)),
        kv("description", sv(PRIVATE_PACKAGES_DOC)),
        kv("properties", DocValue::Table(t2)),
        kv("type", sv("object")),
    ];
    proof {
        lemma_table_doc_tree(t1);
        assert(t1@.map_values(|e: (String, DocValue)| entry_tree(e)) =~= seq![("tag"@, DocTree::Flag(false)), ("version"@, DocTree::Flag(false))]);
        lemma_table_doc_tree(t2);
        assert(t2@.map_values(|e: (String, DocValue)| entry_tree(e)) =~= seq![("tag"@, flag_tree(false, PRIVATE_TAG_DOC@)), ("version"@, flag_tree(false, PRIVATE_VERSION_DOC@))]);
        lemma_table_doc_tree(t3);
        assert(t3@.map_values(|e: (String, DocValue)| entry_tree(e)) =~= seq![("additionalProperties"@, DocTree::Flag(false)), ("default"@, DocTree::Table(seq![("tag"@, DocTree::Flag(false)), ("version"@, DocTree::Flag(false))])), ("description"@, DocTree::Text(PRIVATE_PACKAGES_DOC@)), ("properties"@, DocTree::Table(seq![("tag"@, flag_tree(false, PRIVATE_TAG_DOC@)), ("version"@, flag_tree(false, PRIVATE_VERSION_DOC@))])), ("type"@, DocTree::Text("object"@))]);
    }
    DocValue::Table(t3)
}

/// An entry of a table as a tree.
pub open spec fn entry_tree(e: (String, DocValue)) -> (Seq<char>, DocTree) {
    (e.0@, doc_tree(e.1))
}

proof fn lemma_table_doc_tree(es: Vec<(String, DocValue)>)
    ensures
        doc_tree(DocValue::Table(es)) == DocTree::Table(es@.map_values(|e: (String, DocValue)| entry_tree(e))),
{
    lemma_entry_trees(es@, 0);
    assert(es@.subrange(0, es@.len() as int) =~= es@);
    assert(entry_trees(es@, 0) =~= es@.map_values(|e: (String, DocValue)| entry_tree(e)));
}

proof fn lemma_list_doc_tree(items: Vec<DocValue>)
    ensures
        doc_tree(DocValue::List(items)) == DocTree::List(items@.map_values(|x: DocValue| doc_tree(x))),
{
    lemma_item_trees(items@, 0);
    assert(items@.subrange(0, items@.len() as int) =~= items@);
}

fn versioning_schema(with_default: bool) -> (v: DocValue)
    ensures
        doc_tree(v) == versioning_tree(with_default),
        with_default ==> lists_at(v, 2, "enum"@, seq!["zero-major"@, "semver"@]),
        with_default ==> entry_text(v, 0, "default"@, "zero-major"@),
{
    let mut es: Vec<(String, DocValue)> = Vec::new();
    if with_default {
        es.push(kv("default", sv("zero-major")));
    }
    es.push(kv("description", sv(VERSIONING_DESCRIPTION)));
    let choices: Vec<DocValue> = vec![sv("zero-major"), sv("semver")];
    proof {
        lemma_list_doc_tree(choices);
        assert(choices@.map_values(|x: DocValue| doc_tree(x)) =~= seq![DocTree::Text("zero-major"@), DocTree::Text("semver"@)]);
        assert(list_texts(DocValue::List(choices)) =~= seq!["zero-major"@, "semver"@]);
    }
    es.push(kv("enum", DocValue::List(choices)));
    es.push(kv("type", sv("string")));
    proof {
        lemma_table_doc_tree(es);
        assert(es@.map_values(|e: (String, DocValue)| entry_tree(e)) =~= versioning_tree(with_default)->Table_0);
    }
    DocValue::Table(es)
}

/// JSON Schema for `.changeset/_config.toml`, which `init` and `upgrade`
/// write beside it and which taplo reads through `#:schema ./_schema.json`.
/// Every table's keys stand in byte order.
pub fn schema() -> (v: DocValue)
    ensures
        doc_tree(v) == config_schema(),
        is_config_schema(v),
{
    let t1: Vec<(String, DocValue)> = vec![
        kv("const", DocValue::Flag(false)),
    ];
    let t2: Vec<(String, DocValue)> = vec![
        kv("const", DocValue::Flag(false)),
    ];
    let t3: Vec<(String, DocValue)> = vec![
        kv("change-files", DocValue::Table(t1)),
        kv("conventional-commits", DocValue::Table(t2)),
    ];
    let l4: Vec<DocValue> = vec![sv("change-files"), sv("conventional-commits")];
    let condition: Vec<(String, DocValue)> = vec![
        kv("properties", DocValue::Table(t3)),
        kv("required", DocValue::List(l4)),
    ];
    let l5: Vec<DocValue> = vec![sv("comment"), sv("summary"), sv("both"), sv("none")];
    let t6: Vec<(String, DocValue)> = vec![
        kv("default", sv("both")),
        kv("description", sv(PR_STATUS_DOC)),
        kv("enum", DocValue::List(l5)),
        kv("type", sv("string")),
    ];
    let t7: Vec<(String, DocValue)> = vec![
        kv("description", sv(TOOL_VERSION_DOC)),
        kv("pattern", sv(TOOL_VERSION_PATTERN)),
        kv("type", sv("string")),
    ];
    let properties: Vec<(String, DocValue)> = vec![
        kv("change-files", flag_schema(true, CHANGE_FILES_DOC)),
        kv("commit-message", template_source_schema(COMMIT_MESSAGE_DOC)),
        kv("conventional-commits", flag_schema(true, CONVENTIONAL_COMMITS_DOC)),
        kv("exclude", names_schema(EXCLUDE_DOC)),
        kv("include", names_schema(INCLUDE_DOC)),
        kv("packages", package_schema()),
        kv("pr-status", DocValue::Table(t6)),
        kv("private-packages", private_packages_schema()),
        kv("tag-format", template_source_schema(TAG_FORMAT_DOC)),
        kv("template", template_source_schema(TEMPLATE_DOC)),
        kv("title", template_source_schema(TITLE_DOC)),
        kv("tool-version", DocValue::Table(t7)),
        kv("versioning", versioning_schema(true)),
    ];
    let l8: Vec<DocValue> = vec![sv("tool-version")];
    let top: Vec<(String, DocValue)> = vec![
        kv("$schema", sv("https://json-schema.org/draft-07/schema#")),
        kv("additionalProperties", DocValue::Flag(false)),
        kv("if", DocValue::Table(condition)),
        kv("properties", DocValue::Table(properties)),
        kv("required", DocValue::List(l8)),
        kv("then", DocValue::Flag(false)),
        kv("title", sv("oakum _config.toml")),
        kv("type", sv("object")),
    ];
    proof {
        lemma_table_doc_tree(t1);
        assert(t1@.map_values(|e: (String, DocValue)| entry_tree(e)) =~= seq![("const"@, DocTree::Flag(false))]);
        lemma_table_doc_tree(t2);
        assert(t2@.map_values(|e: (String, DocValue)| entry_tree(e)) =~= seq![("const"@, DocTree::Flag(false))]);
        lemma_table_doc_tree(t3);
        assert(t3@.map_values(|e: (String, DocValue)| entry_tree(e)) =~= seq![("change-files"@, DocTree::Table(seq![("const"@, DocTree::Flag(false))])), ("conventional-commits"@, DocTree::Table(seq![("const"@, DocTree::Flag(false))]))]);
        lemma_list_doc_tree(l4);
        assert(l4@.map_values(|x: DocValue| doc_tree(x)) =~= seq![DocTree::Text("change-files"@), DocTree::Text("conventional-commits"@)]);
        lemma_table_doc_tree(condition);
        assert(condition@.map_values(|e: (String, DocValue)| entry_tree(e)) =~= seq![("properties"@, DocTree::Table(seq![("change-files"@, DocTree::Table(seq![("const"@, DocTree::Flag(false))])), ("conventional-commits"@, DocTree::Table(seq![("const"@, DocTree::Flag(false))]))])), ("required"@, DocTree::List(seq![DocTree::Text("change-files"@), DocTree::Text("conventional-commits"@)]))]);
        lemma_list_doc_tree(l5);
        assert(l5@.map_values(|x: DocValue| doc_tree(x)) =~= seq![DocTree::Text("comment"@), DocTree::Text("summary"@), DocTree::Text("both"@), DocTree::Text("none"@)]);
        lemma_table_doc_tree(t6);
        assert(t6@.map_values(|e: (String, DocValue)| entry_tree(e)) =~= seq![("default"@, DocTree::Text("both"@)), ("description"@, DocTree::Text(PR_STATUS_DOC@)), ("enum"@, DocTree::List(seq![DocTree::Text("comment"@), DocTree::Text("summary"@), DocTree::Text("both"@), DocTree::Text("none"@)])), ("type"@, DocTree::Text("string"@))]);
        lemma_table_doc_tree(t7);
        assert(t7@.map_values(|e: (String, DocValue)| entry_tree(e)) =~= seq![("description"@, DocTree::Text(TOOL_VERSION_DOC@)), ("pattern"@, DocTree::Text(TOOL_VERSION_PATTERN@)), ("type"@, DocTree::Text("string"@))]);
        lemma_table_doc_tree(properties);
        assert(properties@.map_values(|e: (String, DocValue)| entry_tree(e)) =~= seq![("change-files"@, flag_tree(true, CHANGE_FILES_DOC@)), ("commit-message"@, template_source_tree(COMMIT_MESSAGE_DOC@)), ("conventional-commits"@, flag_tree(true, CONVENTIONAL_COMMITS_DOC@)), ("exclude"@, names_tree(EXCLUDE_DOC@)), ("include"@, names_tree(INCLUDE_DOC@)), ("packages"@, package_tree()), ("pr-status"@, DocTree::Table(seq![("default"@, DocTree::Text("both"@)), ("description"@, DocTree::Text(PR_STATUS_DOC@)), ("enum"@, DocTree::List(seq![DocTree::Text("comment"@), DocTree::Text("summary"@), DocTree::Text("both"@), DocTree::Text("none"@)])), ("type"@, DocTree::Text("string"@))])), ("private-packages"@, private_packages_tree()), ("tag-format"@, template_source_tree(TAG_FORMAT_DOC@)), ("template"@, template_source_tree(TEMPLATE_DOC@)), ("title"@, template_source_tree(TITLE_DOC@)), ("tool-version"@, DocTree::Table(seq![("description"@, DocTree::Text(TOOL_VERSION_DOC@)), ("pattern"@, DocTree::Text(TOOL_VERSION_PATTERN@)), ("type"@, DocTree::Text("string"@))])), ("versioning"@, versioning_tree(true))]);
        lemma_list_doc_tree(l8);
        assert(l8@.map_values(|x: DocValue| doc_tree(x)) =~= seq![DocTree::Text("tool-version"@)]);
        lemma_table_doc_tree(top);
        assert(top@.map_values(|e: (String, DocValue)| entry_tree(e)) =~= seq![("$schema"@, DocTree::Text("https://json-schema.org/draft-07/schema#"@)), ("additionalProperties"@, DocTree::Flag(false)), ("if"@, DocTree::Table(seq![("properties"@, DocTree::Table(seq![("change-files"@, DocTree::Table(seq![("const"@, DocTree::Flag(false))])), ("conventional-commits"@, DocTree::Table(seq![("const"@, DocTree::Flag(false))]))])), ("required"@, DocTree::List(seq![DocTree::Text("change-files"@), DocTree::Text("conventional-commits"@)]))])), ("properties"@, DocTree::Table(seq![("change-files"@, flag_tree(true, CHANGE_FILES_DOC@)), ("commit-message"@, template_source_tree(COMMIT_MESSAGE_DOC@)), ("conventional-commits"@, flag_tree(true, CONVENTIONAL_COMMITS_DOC@)), ("exclude"@, names_tree(EXCLUDE_DOC@)), ("include"@, names_tree(INCLUDE_DOC@)), ("packages"@, package_tree()), ("pr-status"@, DocTree::Table(seq![("default"@, DocTree::Text("both"@)), ("description"@, DocTree::Text(PR_STATUS_DOC@)), ("enum"@, DocTree::List(seq![DocTree::Text("comment"@), DocTree::Text("summary"@), DocTree::Text("both"@), DocTree::Text("none"@)])), ("type"@, DocTree::Text("string"@))])), ("private-packages"@, private_packages_tree()), ("tag-format"@, template_source_tree(TAG_FORMAT_DOC@)), ("template"@, template_source_tree(TEMPLATE_DOC@)), ("title"@, template_source_tree(TITLE_DOC@)), ("tool-version"@, DocTree::Table(seq![("description"@, DocTree::Text(TOOL_VERSION_DOC@)), ("pattern"@, DocTree::Text(TOOL_VERSION_PATTERN@)), ("type"@, DocTree::Text("string"@))])), ("versioning"@, versioning_tree(true))])), ("required"@, DocTree::List(seq![DocTree::Text("tool-version"@)])), ("then"@, DocTree::Flag(false)), ("title"@, DocTree::Text("oakum _config.toml"@)), ("type"@, DocTree::Text("object"@))]);
    }
    proof {
        reveal_strlit("tool-version");
        assert(entry_keys(properties@) =~= config_keys());
        let pr_es = properties@[6].1->Table_0;
        assert(list_texts(pr_es@[2].1) =~= seq!["comment"@, "summary"@, "both"@, "none"@]);
        let cond = top@[2].1->Table_0;
        assert(entry_keys(cond@) =~= seq!["properties"@, "required"@]);
        assert(entry_keys(cond@[0].1->Table_0@) =~= seq!["change-files"@, "conventional-commits"@]);
        assert(list_texts(cond@[1].1) =~= seq!["change-files"@, "conventional-commits"@]);
        assert(entry_keys(top@) =~= seq![
            "$schema"@, "additionalProperties"@, "if"@, "properties"@, "required"@, "then"@, "title"@, "type"@,
        ]);
    }
    DocValue::Table(top)
}

/// The pretty JSON Schema plus a closing newline: the bytes `init` writes.
pub fn schema_json() -> (s: String)
    ensures
        s@ == pretty_tree(config_schema(), Seq::empty()) + "\n"@,
{
    let v = schema();
    pretty_json(&v)
}

/// The qualified name of the key at `offset`, as `key_at` resolves it.
pub open spec fn key_at_of(text: Seq<char>, offset: usize) -> Option<Seq<char>> {
    match crate::key_path::toml_tree_of(text) {
        None => None,
        Some(es) => crate::key_path::node_qualified(es, offset as int),
    }
}

/// The refusal for a configuration the reader turned down with `message`
/// at byte `offset`, naming the key found there.
pub fn read_refusal(text: &str, message: &str, offset: Option<usize>) -> (e: ParseError)
    requires
        text@.len() + 2 < usize::MAX,
    ensures
        e@ == toml_refusal(text@, message@, offset, match offset {
            Some(o) => key_at_of(text@, o),
            None => None,
        }),
{
    let key = match offset {
        Some(o) => crate::key_path::key_at(text, o),
        None => None,
    };
    toml_error(text, message, offset, key)
}

} // verus!
