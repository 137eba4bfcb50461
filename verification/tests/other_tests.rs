use fuzzy_matcher::{skim::SkimMatcherV2, FuzzyMatcher};
use lupa::calc::{calc_expression, calculate, calculation_from, Evaluation};
use lupa::emoji::{emoji_catalogue, emoji_subtitle, keep_emoji_score, rank_emojis, EmojiRecord};
use lupa::plugin::{
    order_plugin_results, plugin_icon, plugin_query, rank_plugin_results, sidebar_description,
    PluginEntry,
};
use lupa::spawn::{parse_spawn_command, SpawnError};
use lupa::system::{keep_system_score, rank_system_entries};
use lupa::window::{
    entry_layout, query_of_input, reveal_results, route_query, sidebar_layout, window_icon_size,
    EntryLayout, IconSource, Route,
};

#[test]
fn calc_expressions() {
    assert_eq!(calc_expression("=1/2"), Some("1/2.".to_string()));
    assert_eq!(calc_expression("1.5/2"), Some("1.5/2".to_string()));
    assert_eq!(calc_expression("=2+2"), Some("2+2".to_string()));
    assert_eq!(calc_expression("=42"), None);
    assert_eq!(calc_expression("=+"), None);
    assert_eq!(calc_expression("é+"), Some("é+".to_string()));
}

#[test]
fn calculations_show_values() {
    let c = calculate("=2+2").unwrap();
    assert_eq!(c.result, "4");
    assert_eq!(c.expression, "2+2");
    let half = calculate("1/2").unwrap();
    assert_eq!(half.result, "0.5");
    assert!(calculate("=42").is_none());
    assert!(calculate("=1+").is_none());
}

#[test]
fn calculation_outcomes() {
    assert!(calculation_from("=1+1", &Evaluation::Empty).is_none());
    assert!(calculation_from("=1+1", &Evaluation::Failed).is_none());
    let c = calculation_from("=1+1", &Evaluation::Value("2".into())).unwrap();
    assert_eq!((c.result.as_str(), c.expression.as_str()), ("2", "1+1"));
    assert!(calculation_from("=9", &Evaluation::Value("9".into())).is_none());
}

#[test]
fn emoji_catalogue_and_ranking() {
    let all = emoji_catalogue();
    assert!(all.len() > 1000);
    assert_eq!(all[0].glyph, "😀");
    let r = rank_emojis(&all, "!rocket", 3);
    assert!(!r.is_empty() && r.len() <= 3);
    assert_eq!(all[r[0]].glyph, "🚀");
}

#[test]
fn emoji_subtitles() {
    let e = EmojiRecord { glyph: "🚀".into(), name: "rocket".into(), shortcode: Some("rocket".into()) };
    assert_eq!(emoji_subtitle(&e), "rocket, rocket");
    let f = EmojiRecord { glyph: "x".into(), name: "thing".into(), shortcode: None };
    assert_eq!(emoji_subtitle(&f), "thing");
}

#[test]
fn system_entries_rank() {
    let names = vec!["Shutdown".to_string(), "Reboot".to_string(), "Sleep".to_string(), "Hibernate".to_string()];
    assert_eq!(rank_system_entries(&names, "*Reboot"), vec![1]);
    assert_eq!(rank_system_entries(&names, "Reboot"), vec![1]);
    assert!(rank_system_entries(&names, "zzz").is_empty());
}

#[test]
fn plugin_queries() {
    assert_eq!(plugin_query("?weather", '?'), Some("weather".to_string()));
    assert_eq!(plugin_query("?", '?'), None);
    assert_eq!(plugin_query("weather", '?'), Some("weather".to_string()));
}

#[test]
fn plugin_result_orders() {
    assert_eq!(order_plugin_results(&vec![Some(3), None, Some(1)], false), vec![2, 1, 0]);
    assert_eq!(order_plugin_results(&vec![Some(3), None, Some(1)], true), vec![0, 2, 1]);
    assert_eq!(order_plugin_results(&vec![], true), Vec::<usize>::new());
}

#[test]
fn plugin_results_are_limited() {
    let e = |n: &str| PluginEntry { name: n.to_string(), description: None, icon: None };
    let entries = vec![e("alpha"), e("beta"), e("gamma")];
    assert_eq!(rank_plugin_results(&entries, "a", false, 2), vec![1, 0]);
    assert_eq!(plugin_icon(&entries[0]), "puzzle-piece-symbolic");
    let with_icon = PluginEntry { name: "x".into(), description: None, icon: Some("star".into()) };
    assert_eq!(plugin_icon(&with_icon), "star");
    assert_eq!(sidebar_description(""), None);
    assert_eq!(sidebar_description("info"), Some("info".to_string()));
}

#[test]
fn spawn_commands() {
    let c = parse_spawn_command("notify-send\nhello\n%u\n\nworld").unwrap();
    assert_eq!(c.program, "notify-send");
    assert_eq!(c.args, vec!["hello", "world"]);
    assert_eq!(parse_spawn_command("\n%f\n").unwrap_err(), SpawnError::UnparsableCommand);
}

#[test]
fn prefixes_route_queries() {
    assert_eq!(route_query("#firefox"), Route::Apps);
    assert_eq!(route_query("=1+1"), Route::Calculator);
    assert_eq!(route_query("/notes"), Route::Files);
    assert_eq!(route_query("firefox"), Route::All);
    assert_eq!(route_query("*reboot"), Route::System);
    assert_eq!(route_query("!rocket"), Route::Emoji);
    assert_eq!(route_query("reboot*"), Route::All);
    assert_eq!(route_query(""), Route::All);
}

#[test]
fn window_input_and_layout() {
    assert_eq!(query_of_input("  fire \n"), "fire");
    assert!(!reveal_results("", true));
    assert!(!reveal_results("x", false));
    assert!(reveal_results("x", true));
    assert_eq!(window_icon_size(64), 60);
    assert_eq!(
        entry_layout(true, true, true, false, Some(60)),
        EntryLayout { show_subtitle: true, icon: IconSource::File, icon_size: 60, show_flatpak_badge: false }
    );
    assert_eq!(entry_layout(false, true, false, true, None).icon, IconSource::Hidden);
    assert_eq!(entry_layout(false, true, false, true, Some(8)).icon, IconSource::Themed);
    assert_eq!(sidebar_layout(false, true, true), (IconSource::Hidden, true));
    assert_eq!(sidebar_layout(true, false, false), (IconSource::Themed, false));
}

#[test]
fn emoji_scores_kept() {
    assert_eq!(keep_emoji_score(Some(60)), Some(60));
    assert_eq!(keep_emoji_score(Some(59)), None);
    assert_eq!(keep_emoji_score(None), None);
}

#[test]
fn system_scores_kept() {
    assert_eq!(keep_system_score(Some(65), false), Some(65));
    assert_eq!(keep_system_score(Some(64), false), None);
    assert_eq!(keep_system_score(Some(1), true), Some(1));
    assert_eq!(keep_system_score(Some(0), true), None);
    assert_eq!(keep_system_score(None, true), None);
}

#[test]
fn shown_emoji_match_their_query() {
    let all = emoji_catalogue();
    let r = rank_emojis(&all, "!heart", 4);
    assert_eq!(r.len(), 4);
    let matcher = SkimMatcherV2::default();
    for i in r {
        let e = &all[i];
        let key = e.shortcode.as_deref().unwrap_or(&e.name);
        assert!(matcher.fuzzy_match(key, "heart").unwrap() >= 60);
    }
}

#[test]
fn shown_actions_match_their_query() {
    let names = vec!["Shutdown".to_string(), "Reboot".to_string(), "Sleep".to_string(), "Hibernate".to_string()];
    let explicit = rank_system_entries(&names, "*e");
    assert!(explicit.len() <= names.len());
    for i in &explicit {
        assert!(names[*i].to_lowercase().contains('e'));
    }
    assert!(rank_system_entries(&names, "e").len() <= explicit.len());
}
