use oakum::config::PrivatePackages;
use oakum::versions::{parse_version, SemVer};
use oakum::plan::{Ecosystem, Package, PackageId, Workspace};
use oakum::tag_shape::{default_tag_template, offerable, ReadableTemplate, TagShape};

const READABLE_COUNT: usize = 4;

fn chars(s: &str) -> Vec<char> {
    s.chars().collect()
}

fn lookup(template: &str) -> Option<ReadableTemplate> {
    ReadableTemplate::lookup(&chars(template))
}

fn tag_all() -> PrivatePackages {
    PrivatePackages::new(true, true)
}

fn workspace(names: &[&str]) -> Workspace {
    Workspace::new(
        names
            .iter()
            .map(|name| Package::new(PackageId::new(Ecosystem::Cargo, name), version("0.1.0"), true))
            .collect(),
    )
}

fn strings(tags: &[&str]) -> Vec<String> {
    tags.iter().map(|tag| (*tag).to_owned()).collect()
}

fn shape(tags: &[&str], names: &[&str]) -> TagShape {
    oakum::tag_shape::derive(&strings(tags), Some(&workspace(names)), tag_all())
}

fn derived(tags: &[&str], names: &[&str]) -> &'static str {
    match shape(tags, names) {
        TagShape::Derived(template) => template.as_str(),
        other => panic!("expected a derived shape for {tags:?}, got {other:?}"),
    }
}

fn refused(tags: &[&str], names: &[&str]) -> String {
    match shape(tags, names) {
        TagShape::Undecided { why, .. } => why,
        other => panic!("expected a refusal for {tags:?}, got {other:?}"),
    }
}

#[test]
fn release_defaults_are_spelled_the_way_this_module_spells_them() {
    for managed in [0, 1, 2, 3] {
        assert!(
            lookup(default_tag_template(managed)).is_some(),
            "`release`'s default for {managed} tag-managed package(s) is not one of this module's readable shapes: {}",
            default_tag_template(managed)
        );
    }
}

#[test]
fn every_readable_shape_derives() {
    assert_eq!(
        derived(
            &["review-cycle@0.17.0", "prose@0.1.0"],
            &["review-cycle", "prose"]
        ),
        "{{ package }}@{{ version }}"
    );
    assert_eq!(
        derived(&["linesmith/v0.2.0"], &["linesmith"]),
        "{{ package }}/v{{ version }}"
    );
    assert_eq!(
        derived(&["linesmith-core-v0.1.3"], &["linesmith", "linesmith-core"]),
        "{{ package }}-v{{ version }}"
    );
    assert_eq!(derived(&["v0.1.0", "v0.2.0"], &["oakum"]), "v{{ version }}");
}

#[test]
fn a_scoped_npm_name_is_one_package_name_not_a_separator() {
    let workspace = Workspace::new(vec![Package::new(
        PackageId::new(Ecosystem::Npm, "@jbabin91/mui-theme"),
        version("0.1.0"),
        true,
    )]);
    let tags = strings(&["@jbabin91/mui-theme@1.4.0"]);
    assert_eq!(
        oakum::tag_shape::derive(&tags, Some(&workspace), tag_all()),
        TagShape::Derived(lookup("{{ package }}@{{ version }}").expect("readable"))
    );
}

#[test]
fn a_prerelease_tag_derives_the_same_shape() {
    assert_eq!(
        derived(&["oakum@0.2.0-rc.1", "oakum@0.1.0"], &["oakum"]),
        "{{ package }}@{{ version }}"
    );
}

#[test]
fn a_sibling_prefix_name_does_not_explain_a_longer_package_tag() {
    assert_eq!(
        derived(&["linesmith-core@0.2.0"], &["linesmith", "linesmith-core"]),
        "{{ package }}@{{ version }}"
    );
}

#[test]
fn tags_that_disagree_derive_nothing() {
    let why = refused(
        &["linesmith/v0.2.0", "linesmith-core-v0.1.3"],
        &["linesmith", "linesmith-core"],
    );
    assert_eq!(
        why,
        "`linesmith/v0.2.0` and `linesmith-core-v0.1.3` are not the same shape"
    );
}

#[test]
fn one_unexplained_tag_derives_nothing() {
    for tag in ["nightly", "v1", "release-2024-01-01"] {
        let why = refused(&["oakum@0.1.0", tag], &["oakum"]);
        assert_eq!(why, format!("no package name and version explain `{tag}`"));
    }
}

#[test]
fn a_shape_oakum_cannot_read_back_derives_nothing() {
    let why = refused(&["oakum_1.0.0", "oakum_1.1.0"], &["oakum"]);
    assert_eq!(
        why,
        "the existing tags are shaped `{{ package }}_{{ version }}`, which oakum does not read"
    );
    let slash_without_v = refused(&["oakum/1.0.0"], &["oakum"]);
    assert_eq!(
        slash_without_v,
        "the existing tags are shaped `{{ package }}/{{ version }}`, which oakum does not read"
    );
}

#[test]
fn one_tag_managed_package_is_offered_the_bare_shape_too() {
    let tags = strings(&["oakum_1.0.0", "oakum_1.1.0"]);
    let TagShape::Undecided { offerable, .. } =
        oakum::tag_shape::derive(&tags, Some(&workspace(&["oakum"])), tag_all())
    else {
        panic!("a shape oakum cannot read derives nothing");
    };
    assert!(offerable.iter().any(|shape| shape.is_bare()), "{offerable:?}");
    assert_eq!(offerable.len(), READABLE_COUNT);
}

#[test]
fn a_v_prefix_and_a_v_bearing_separator_are_one_template() {
    assert_eq!(
        derived(&["oakum-v1.0.0"], &["oakum"]),
        "{{ package }}-v{{ version }}"
    );
}

#[test]
fn a_tag_two_package_names_split_differently_derives_nothing() {
    let why = refused(&["oakum.@1.0.0"], &["oakum", "oakum."]);
    assert_eq!(
        why,
        "the existing tags fit more than one shape (`{{ package }}.@{{ version }}`, `{{ package }}@{{ version }}`)"
    );
}

#[test]
fn no_tags_is_not_a_refusal() {
    assert_eq!(
        oakum::tag_shape::derive(&Vec::new(), Some(&workspace(&["oakum"])), tag_all()),
        TagShape::NoTags
    );
}

#[test]
fn without_a_workspace_only_package_less_shapes_derive() {
    let bare = strings(&["v0.1.0"]);
    assert_eq!(
        oakum::tag_shape::derive(&bare, None, tag_all()),
        TagShape::Derived(lookup("v{{ version }}").expect("readable"))
    );
    let prefixed = strings(&["oakum@0.1.0"]);
    assert_eq!(
        oakum::tag_shape::derive(&prefixed, None, tag_all()),
        TagShape::Undecided {
            why: String::from("no package name and version explain `oakum@0.1.0`"),
            offerable: offerable(0),
        }
    );
}

#[test]
fn a_bare_shape_is_undecided_when_more_than_one_package_is_tag_managed() {
    let tags = strings(&["v0.1.0", "v0.2.0"]);
    let single = oakum::tag_shape::derive(&tags, Some(&workspace(&["alpha"])), tag_all());
    assert_eq!(
        single,
        TagShape::Derived(lookup("v{{ version }}").expect("readable"))
    );
    let TagShape::Undecided { why, offerable } =
        oakum::tag_shape::derive(&tags, Some(&workspace(&["alpha", "beta"])), tag_all())
    else {
        panic!("two tag-managed packages cannot own one bare tag");
    };
    assert!(why.contains("names no package"), "{why}");
    assert!(why.contains("2 packages are tag-managed"), "{why}");
    assert!(
        !offerable.iter().any(|shape| shape.is_bare()),
        "a refusal naming bare as unusable cannot offer it: {offerable:?}"
    );
    assert_eq!(offerable.len(), READABLE_COUNT - 1);
}

#[test]
fn a_package_less_tag_without_the_v_derives_nothing() {
    let why = refused(&["0.1.0", "0.2.0"], &["oakum"]);
    assert_eq!(
        why,
        "the existing tags are shaped `{{ version }}`, which oakum does not read"
    );
}

#[test]
fn an_unpublishable_package_is_tag_managed_only_when_opted_in() {
    let ws = Workspace::new(vec![
        Package::new(PackageId::new(Ecosystem::Cargo, "alpha"), version("0.1.0"), false),
        Package::new(PackageId::new(Ecosystem::Cargo, "beta"), version("0.1.0"), false),
    ]);
    let tags = strings(&["v0.1.0"]);
    assert_eq!(
        oakum::tag_shape::derive(&tags, Some(&ws), PrivatePackages::new(false, false)),
        TagShape::Derived(lookup("v{{ version }}").expect("readable"))
    );
    match oakum::tag_shape::derive(&tags, Some(&ws), PrivatePackages::new(false, true)) {
        TagShape::Undecided { why, .. } => assert!(why.contains("2 packages"), "{why}"),
        other => panic!("two opted-in packages cannot own a bare tag: {other:?}"),
    }
}

#[test]
fn the_default_template_follows_the_workspace_size() {
    assert_eq!(default_tag_template(0), "v{{ version }}");
    assert_eq!(default_tag_template(1), "v{{ version }}");
    assert_eq!(default_tag_template(2), "{{ package }}/v{{ version }}");
}

fn version(text: &str) -> SemVer {
    parse_version(text).expect("a version")
}

#[test]
fn the_derived_shape_does_not_depend_on_the_order_of_the_tags() {
    let ws = workspace(&["core", "cli"]);
    let a = strings(&["core@1.0.0", "cli@0.2.0", "core@1.1.0"]);
    let b = strings(&["core@1.1.0", "core@1.0.0", "cli@0.2.0"]);
    let da = oakum::tag_shape::derive(&a, Some(&ws), tag_all());
    let db = oakum::tag_shape::derive(&b, Some(&ws), tag_all());
    assert!(matches!(da, TagShape::Derived(ReadableTemplate::At)), "{da:?}");
    assert!(matches!(db, TagShape::Derived(ReadableTemplate::At)), "{db:?}");
}
