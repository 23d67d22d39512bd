//! The Japanese dictionary.

use vstd::prelude::*;

use crate::config::HeroChipConfig;
use crate::table::StringTable;

verus! {

/// The interface's text in Japanese, the default.
pub open spec fn ui_strings_spec() -> Map<Seq<char>, Seq<char>> {
    Map::empty()
        .insert("pane.toc"@, "目次"@)
        .insert("pane.toc_short"@, "目次"@)
        .insert("pane.links"@, "リンク"@)
        .insert("pane.links_short"@, "リンク"@)
        .insert("pane.graph"@, "グラフ"@)
        .insert("pane.graph_short"@, "グラフ"@)
        .insert("pane.index"@, "索引"@)
        .insert("pane.index_short"@, "索引"@)
        .insert("index.empty"@, "索引が書かれていません"@)
        .insert("pane.lookup"@, "検索"@)
        .insert("pane.lookup_short"@, "検索"@)
        .insert("lookup.placeholder"@, "タイトルで絞り込み"@)
        .insert("lookup.tags_all"@, "すべて"@)
        .insert("pane.data"@, "データ・プロファイル"@)
        .insert("pane.data_short"@, "データ"@)
        .insert("pane.collapse"@, "クリックしてパネルを折りたたむ"@)
        .insert("pane.data_expand"@, "クリックしてデータを展開"@)
        .insert("pane.data_collapse"@, "クリックしてデータを折りたたむ"@)
        .insert("nav.home"@, "← ホーム"@)
        .insert("nav.home_title"@, "ホームへ"@)
        .insert("nav.section"@, "分類:"@)
        .insert("nav.bar"@, "ナビゲーションバー"@)
        .insert("toc.heading"@, "目次"@)
        .insert("recent.heading"@, "最近開いたノート"@)
        .insert("backlinks.heading"@, "バックリンク"@)
        .insert("backlinks.empty"@, "リンクしているノートはありません"@)
        .insert("graph.heading"@, "ローカルグラフ"@)
        .insert("graph.placeholder"@, "グラフ準備中"@)
        .insert("sticky.label"@, "付箋見出し"@)
        .insert("sticky.to_top"@, "ページの先頭へ"@)
        .insert("sticky.to_bottom"@, "ページの末尾へ"@)
        .insert("tabs.side"@, "付箋の位置を切り替え"@)
        .insert("tabs.top"@, "⬒ 上"@)
        .insert("tabs.top_title"@, "付箋を上に横並びで置く"@)
        .insert("tabs.right"@, "◨ 右"@)
        .insert("tabs.right_title"@, "付箋を右に縦並びで置く"@)
        .insert("costume.label"@, "衣装:"@)
        .insert("costume.item"@, "衣装"@)
        .insert("image.zoom"@, "拡大"@)
        .insert("image.zoom_banner"@, "バナーを拡大表示"@)
        .insert("image.banner_alt"@, "バナー"@)
        .insert("lightbox.close"@, "閉じる"@)
        .insert("peek.fullscreen"@, "全画面で開く"@)
        .insert("peek.close"@, "閉じる"@)
        .insert("preview.open_peek"@, "クリックで開く"@)
        .insert("peek.error"@, "ページの読み込みに失敗しました"@)
        .insert("peek.not_found"@, "本文が見つかりませんでした"@)
        .insert("index.sections"@, "セクション分類"@)
        .insert("index.entries"@, "ノート一覧"@)
        .insert("index.note_unit"@, "ノート"@)
        .insert("view.switch"@, "表示モード切替"@)
        .insert("view.book"@, "📖 本"@)
        .insert("view.book_title"@, "本モード (マルチペイン)"@)
        .insert("view.classic"@, "📄 縦"@)
        .insert("view.classic_title"@, "縦スクロールモード"@)
        .insert("drag.handle"@, "ドラッグして移動"@)
        .insert("theme.toggle"@, "テーマ切り替え (ライト / ダーク)"@)
        .insert("theme.toggle_label"@, "テーマ切り替え"@)
        .insert("theme.to_light"@, "ライトテーマに切り替え"@)
        .insert("theme.to_dark"@, "ダークテーマに切り替え"@)
        .insert("theme.shell_toggle"@, "シェルテーマ切り替え"@)
        .insert("theme.shell_label"@, "シェルテーマ"@)
        .insert("theme.shell.color_label"@, "カラー"@)
        .insert("theme.shell.pattern_label"@, "模様"@)
        .insert("theme.shell.contrast_label"@, "コントラスト"@)
        .insert("theme.shell.contrast_high"@, "ハイコントラスト"@)
        .insert("theme.shell.slate"@, "スレート"@)
        .insert("theme.shell.violet"@, "バイオレット"@)
        .insert("theme.shell.indigo"@, "インディゴ"@)
        .insert("theme.shell.olive"@, "オリーブ"@)
        .insert("theme.shell.contrast"@, "コントラスト"@)
        .insert("theme.shell.color_slate"@, "スレート"@)
        .insert("theme.shell.color_violet"@, "バイオレット"@)
        .insert("theme.shell.color_indigo"@, "インディゴ"@)
        .insert("theme.shell.color_olive"@, "オリーブ"@)
        .insert("theme.shell.pattern_marble"@, "マーブル"@)
        .insert("theme.shell.pattern_cloud"@, "クラウド"@)
        .insert("theme.shell.pattern_seigaiha"@, "青海波"@)
        .insert("theme.shell.pattern_flourish"@, "古書装丁"@)
        .insert("theme.shell.pattern_mesh"@, "メッシュ"@)
        .insert("theme.shell.pattern_none"@, "なし"@)
        .insert("search.placeholder"@, "検索... (Ctrl+K)"@)
        .insert("search.loading"@, "検索インデックスを準備中..."@)
        .insert("search.empty"@, "見つかりませんでした"@)
        .insert("search.aliases"@, "別名:"@)
        .insert("search.prev"@, "◀ 前へ"@)
        .insert("search.next"@, "次へ ▶"@)
        .insert("edit.open"@, "編集"@)
        .insert("edit.editor"@, "エディタで開く"@)
        .insert("edit.vscode"@, "VSCode で開く"@)
        .insert("edit.cursor"@, "Cursor で開く"@)
        .insert("edit.copy_path"@, "パスをコピー"@)
        .insert("edit.copy_path_title"@, "ファイルパスをコピー"@)
        .insert("toast.copied"@, "📋 パスをクリップボードにコピーしました"@)
        .insert("toast.copy_failed"@, "❌ コピーに失敗しました"@)
        .insert("link.unresolved"@, "未作成のページ"@)
}

/// The interface's text in Japanese, the default.
pub fn ui_strings() -> (t: StringTable)
    ensures
        t@ == ui_strings_spec(),
{
    let mut t = StringTable::new();
    t.insert("pane.toc".to_owned(), "目次".to_owned());
    t.insert("pane.toc_short".to_owned(), "目次".to_owned());
    t.insert("pane.links".to_owned(), "リンク".to_owned());
    t.insert("pane.links_short".to_owned(), "リンク".to_owned());
    t.insert("pane.graph".to_owned(), "グラフ".to_owned());
    t.insert("pane.graph_short".to_owned(), "グラフ".to_owned());
    t.insert("pane.index".to_owned(), "索引".to_owned());
    t.insert("pane.index_short".to_owned(), "索引".to_owned());
    t.insert("index.empty".to_owned(), "索引が書かれていません".to_owned());
    t.insert("pane.lookup".to_owned(), "検索".to_owned());
    t.insert("pane.lookup_short".to_owned(), "検索".to_owned());
    t.insert("lookup.placeholder".to_owned(), "タイトルで絞り込み".to_owned());
    t.insert("lookup.tags_all".to_owned(), "すべて".to_owned());
    t.insert("pane.data".to_owned(), "データ・プロファイル".to_owned());
    t.insert("pane.data_short".to_owned(), "データ".to_owned());
    t.insert("pane.collapse".to_owned(), "クリックしてパネルを折りたたむ".to_owned());
    t.insert("pane.data_expand".to_owned(), "クリックしてデータを展開".to_owned());
    t.insert("pane.data_collapse".to_owned(), "クリックしてデータを折りたたむ".to_owned());
    t.insert("nav.home".to_owned(), "← ホーム".to_owned());
    t.insert("nav.home_title".to_owned(), "ホームへ".to_owned());
    t.insert("nav.section".to_owned(), "分類:".to_owned());
    t.insert("nav.bar".to_owned(), "ナビゲーションバー".to_owned());
    t.insert("toc.heading".to_owned(), "目次".to_owned());
    t.insert("recent.heading".to_owned(), "最近開いたノート".to_owned());
    t.insert("backlinks.heading".to_owned(), "バックリンク".to_owned());
    t.insert("backlinks.empty".to_owned(), "リンクしているノートはありません".to_owned());
    t.insert("graph.heading".to_owned(), "ローカルグラフ".to_owned());
    t.insert("graph.placeholder".to_owned(), "グラフ準備中".to_owned());
    t.insert("sticky.label".to_owned(), "付箋見出し".to_owned());
    t.insert("sticky.to_top".to_owned(), "ページの先頭へ".to_owned());
    t.insert("sticky.to_bottom".to_owned(), "ページの末尾へ".to_owned());
    t.insert("tabs.side".to_owned(), "付箋の位置を切り替え".to_owned());
    t.insert("tabs.top".to_owned(), "⬒ 上".to_owned());
    t.insert("tabs.top_title".to_owned(), "付箋を上に横並びで置く".to_owned());
    t.insert("tabs.right".to_owned(), "◨ 右".to_owned());
    t.insert("tabs.right_title".to_owned(), "付箋を右に縦並びで置く".to_owned());
    t.insert("costume.label".to_owned(), "衣装:".to_owned());
    t.insert("costume.item".to_owned(), "衣装".to_owned());
    t.insert("image.zoom".to_owned(), "拡大".to_owned());
    t.insert("image.zoom_banner".to_owned(), "バナーを拡大表示".to_owned());
    t.insert("image.banner_alt".to_owned(), "バナー".to_owned());
    t.insert("lightbox.close".to_owned(), "閉じる".to_owned());
    t.insert("peek.fullscreen".to_owned(), "全画面で開く".to_owned());
    t.insert("peek.close".to_owned(), "閉じる".to_owned());
    t.insert("preview.open_peek".to_owned(), "クリックで開く".to_owned());
    t.insert("peek.error".to_owned(), "ページの読み込みに失敗しました".to_owned());
    t.insert("peek.not_found".to_owned(), "本文が見つかりませんでした".to_owned());
    t.insert("index.sections".to_owned(), "セクション分類".to_owned());
    t.insert("index.entries".to_owned(), "ノート一覧".to_owned());
    t.insert("index.note_unit".to_owned(), "ノート".to_owned());
    t.insert("view.switch".to_owned(), "表示モード切替".to_owned());
    t.insert("view.book".to_owned(), "📖 本".to_owned());
    t.insert("view.book_title".to_owned(), "本モード (マルチペイン)".to_owned());
    t.insert("view.classic".to_owned(), "📄 縦".to_owned());
    t.insert("view.classic_title".to_owned(), "縦スクロールモード".to_owned());
    t.insert("drag.handle".to_owned(), "ドラッグして移動".to_owned());
    t.insert("theme.toggle".to_owned(), "テーマ切り替え (ライト / ダーク)".to_owned());
    t.insert("theme.toggle_label".to_owned(), "テーマ切り替え".to_owned());
    t.insert("theme.to_light".to_owned(), "ライトテーマに切り替え".to_owned());
    t.insert("theme.to_dark".to_owned(), "ダークテーマに切り替え".to_owned());
    t.insert("theme.shell_toggle".to_owned(), "シェルテーマ切り替え".to_owned());
    t.insert("theme.shell_label".to_owned(), "シェルテーマ".to_owned());
    t.insert("theme.shell.color_label".to_owned(), "カラー".to_owned());
    t.insert("theme.shell.pattern_label".to_owned(), "模様".to_owned());
    t.insert("theme.shell.contrast_label".to_owned(), "コントラスト".to_owned());
    t.insert("theme.shell.contrast_high".to_owned(), "ハイコントラスト".to_owned());
    t.insert("theme.shell.slate".to_owned(), "スレート".to_owned());
    t.insert("theme.shell.violet".to_owned(), "バイオレット".to_owned());
    t.insert("theme.shell.indigo".to_owned(), "インディゴ".to_owned());
    t.insert("theme.shell.olive".to_owned(), "オリーブ".to_owned());
    t.insert("theme.shell.contrast".to_owned(), "コントラスト".to_owned());
    t.insert("theme.shell.color_slate".to_owned(), "スレート".to_owned());
    t.insert("theme.shell.color_violet".to_owned(), "バイオレット".to_owned());
    t.insert("theme.shell.color_indigo".to_owned(), "インディゴ".to_owned());
    t.insert("theme.shell.color_olive".to_owned(), "オリーブ".to_owned());
    t.insert("theme.shell.pattern_marble".to_owned(), "マーブル".to_owned());
    t.insert("theme.shell.pattern_cloud".to_owned(), "クラウド".to_owned());
    t.insert("theme.shell.pattern_seigaiha".to_owned(), "青海波".to_owned());
    t.insert("theme.shell.pattern_flourish".to_owned(), "古書装丁".to_owned());
    t.insert("theme.shell.pattern_mesh".to_owned(), "メッシュ".to_owned());
    t.insert("theme.shell.pattern_none".to_owned(), "なし".to_owned());
    t.insert("search.placeholder".to_owned(), "検索... (Ctrl+K)".to_owned());
    t.insert("search.loading".to_owned(), "検索インデックスを準備中...".to_owned());
    t.insert("search.empty".to_owned(), "見つかりませんでした".to_owned());
    t.insert("search.aliases".to_owned(), "別名:".to_owned());
    t.insert("search.prev".to_owned(), "◀ 前へ".to_owned());
    t.insert("search.next".to_owned(), "次へ ▶".to_owned());
    t.insert("edit.open".to_owned(), "編集".to_owned());
    t.insert("edit.editor".to_owned(), "エディタで開く".to_owned());
    t.insert("edit.vscode".to_owned(), "VSCode で開く".to_owned());
    t.insert("edit.cursor".to_owned(), "Cursor で開く".to_owned());
    t.insert("edit.copy_path".to_owned(), "パスをコピー".to_owned());
    t.insert("edit.copy_path_title".to_owned(), "ファイルパスをコピー".to_owned());
    t.insert("toast.copied".to_owned(), "📋 パスをクリップボードにコピーしました".to_owned());
    t.insert("toast.copy_failed".to_owned(), "❌ コピーに失敗しました".to_owned());
    t.insert("link.unresolved".to_owned(), "未作成のページ".to_owned());
    t
}

/// The hero chips a Japanese book shows by default.
pub open spec fn hero_chips_spec() -> Seq<(Seq<char>, Option<Seq<char>>, Option<Seq<char>>)> {
    seq![
        ("parent"@, Some("所属"@), None),
        ("type.list-a"@, Some("ファン"@), None),
        ("type.element-a"@, None, None),
        ("birth"@, Some("🎂"@), Some("birthday"@)),
    ]
}

/// The hero chips a Japanese book shows by default.
pub fn hero_chips() -> (r: Vec<HeroChipConfig>)
    ensures
        r@.map_values(|c: HeroChipConfig| c@) == hero_chips_spec(),
{
    let r = vec![
        HeroChipConfig { key: "parent".to_owned(), label: Some("所属".to_owned()), format: None },
        HeroChipConfig { key: "type.list-a".to_owned(), label: Some("ファン".to_owned()), format: None },
        HeroChipConfig { key: "type.element-a".to_owned(), label: None, format: None },
        HeroChipConfig { key: "birth".to_owned(), label: Some("🎂".to_owned()), format: Some("birthday".to_owned()) },
    ];
    assert(r@.map_values(|c: HeroChipConfig| c@) =~= hero_chips_spec());
    r
}

/// The infobox labels a Japanese book shows by default.
pub open spec fn key_labels_spec() -> Map<Seq<char>, Seq<char>> {
    Map::empty()
        .insert("kind"@, "種別"@)
        .insert("type"@, "種別"@)
        .insert("birth"@, "誕生日"@)
        .insert("height"@, "身長"@)
        .insert("creator"@, "デザイン"@)
        .insert("type.list-a"@, "ファンネーム"@)
        .insert("type.element-a"@, "属性 / MBTI"@)
        .insert("colors"@, "カラー"@)
        .insert("parent"@, "所属ユニット"@)
        .insert("group"@, "所属組織"@)
        .insert("place"@, "出身地"@)
        .insert("created"@, "作成日"@)
        .insert("modified"@, "更新日"@)
        .insert("reviewed"@, "確認日"@)
        .insert("rating"@, "評価"@)
        .insert("aliases"@, "別名 / 愛称"@)
        .insert("topics"@, "トピック"@)
        .insert("flags"@, "フラグ"@)
        .insert("published"@, "公開日"@)
        .insert("url.wiki"@, "Wikipedia"@)
        .insert("url.else"@, "関連リンク"@)
}

/// The infobox labels a Japanese book shows by default.
pub fn key_labels() -> (t: StringTable)
    ensures
        t@ == key_labels_spec(),
{
    let mut t = StringTable::new();
    t.insert("kind".to_owned(), "種別".to_owned());
    t.insert("type".to_owned(), "種別".to_owned());
    t.insert("birth".to_owned(), "誕生日".to_owned());
    t.insert("height".to_owned(), "身長".to_owned());
    t.insert("creator".to_owned(), "デザイン".to_owned());
    t.insert("type.list-a".to_owned(), "ファンネーム".to_owned());
    t.insert("type.element-a".to_owned(), "属性 / MBTI".to_owned());
    t.insert("colors".to_owned(), "カラー".to_owned());
    t.insert("parent".to_owned(), "所属ユニット".to_owned());
    t.insert("group".to_owned(), "所属組織".to_owned());
    t.insert("place".to_owned(), "出身地".to_owned());
    t.insert("created".to_owned(), "作成日".to_owned());
    t.insert("modified".to_owned(), "更新日".to_owned());
    t.insert("reviewed".to_owned(), "確認日".to_owned());
    t.insert("rating".to_owned(), "評価".to_owned());
    t.insert("aliases".to_owned(), "別名 / 愛称".to_owned());
    t.insert("topics".to_owned(), "トピック".to_owned());
    t.insert("flags".to_owned(), "フラグ".to_owned());
    t.insert("published".to_owned(), "公開日".to_owned());
    t.insert("url.wiki".to_owned(), "Wikipedia".to_owned());
    t.insert("url.else".to_owned(), "関連リンク".to_owned());
    t
}

} // verus!
