use hyprconf::model::{Category, ConfigEntry};

fn entry(category: Category, file_name: &str, alias: &str) -> ConfigEntry {
    ConfigEntry {
        path: format!("/cfg/{}", file_name),
        file_name: file_name.to_string(),
        alias: alias.to_string(),
        description: None,
        category,
    }
}

#[test]
fn ranks_follow_listing_order() {
    assert_eq!(Category::Hyprland.rank(), 0);
    assert_eq!(Category::Utility.rank(), 1);
    assert_eq!(Category::Themes.rank(), 2);
    assert_eq!(Category::Plugins.rank(), 3);
    assert_eq!(Category::ConfD.rank(), 4);
    assert_eq!(Category::Scripts.rank(), 5);
}

#[test]
fn labels_are_lowercase_names() {
    assert_eq!(Category::Hyprland.label(), "hyprland");
    assert_eq!(Category::Utility.label(), "utility");
    assert_eq!(Category::Themes.label(), "themes");
    assert_eq!(Category::Plugins.label(), "plugins");
    assert_eq!(Category::Scripts.label(), "scripts");
}

#[test]
fn drop_in_label_differs_from_its_name() {
    assert_eq!(Category::ConfD.label(), "conf.d");
    assert_eq!(Category::ConfD.to_string(), "conf.d");
}

#[test]
fn line_budget_is_larger_for_utilities() {
    assert_eq!(Category::Utility.line_budget(), 20);
    assert_eq!(Category::Hyprland.line_budget(), 10);
    assert_eq!(Category::ConfD.line_budget(), 10);
    assert_eq!(Category::Themes.line_budget(), 10);
    assert_eq!(Category::Plugins.line_budget(), 10);
    assert_eq!(Category::Scripts.line_budget(), 10);
}

#[test]
fn sort_key_lowercases_the_alias() {
    let e = entry(Category::Themes, "Nord.conf", "Nord");
    assert_eq!(e.sort_key(), (2, "nord".to_string()));
}

#[test]
fn sort_key_of_drop_in_uses_the_file_name() {
    let e = entry(Category::ConfD, "70-Binds.conf", "Binds");
    assert_eq!(e.sort_key(), (4, "70-binds.conf".to_string()));
}

#[test]
fn sort_key_lowercases_beyond_ascii() {
    let e = entry(Category::Scripts, "ÄB", "ÄB");
    assert_eq!(e.sort_key(), (5, "äb".to_string()));
}

#[test]
fn clone_keeps_every_field() {
    let mut e = entry(Category::Utility, "hyprlock.conf", "hyprlock");
    e.description = Some("lock screen".to_string());
    let c = e.clone();
    assert_eq!(c.path, e.path);
    assert_eq!(c.file_name, e.file_name);
    assert_eq!(c.alias, e.alias);
    assert_eq!(c.description, e.description);
    assert_eq!(c.category, e.category);
}

#[test]
fn categories_compare_as_their_ranks() {
    let all = [
        Category::Hyprland,
        Category::Utility,
        Category::Themes,
        Category::Plugins,
        Category::ConfD,
        Category::Scripts,
    ];
    for a in all {
        for b in all {
            assert_eq!(a.cmp(&b), a.rank().cmp(&b.rank()));
            assert_eq!(a < b, a.rank() < b.rank());
        }
    }
    let mut mixed = vec![Category::Scripts, Category::Hyprland, Category::ConfD, Category::Themes];
    mixed.sort();
    assert_eq!(
        mixed,
        vec![Category::Hyprland, Category::Themes, Category::ConfD, Category::Scripts]
    );
}
