//! The position in a list, and lists with a marked entry.

use aidev::app::keys::{KeyCode, KeyEvent, KeyModifiers};
use aidev::app::list::{ListNav, Selection};

#[test]
fn leere_liste_ist_sicher() {
    let nav = ListNav::new(0);
    assert!(nav.is_empty());
    assert_eq!(nav.len(), 0);
    assert_eq!(nav.cursor(), 0);
    assert_eq!(nav.offset(), 0);
    assert_eq!(nav.selected(), None);

    let mut nav = nav;
    nav.move_down();
    nav.move_up();
    nav.page_down(5);
    nav.page_up(5);
    nav.move_bottom();
    nav.move_top();
    nav.follow(10, |_| 1);
    assert_eq!(nav.visible(10), 0..0);
    assert_eq!(nav.cursor(), 0);
    assert_eq!(nav.offset(), 0);
}

#[test]
fn selected_zeigt_den_markierten_eintrag() {
    assert_eq!(ListNav::new(3).selected(), Some(0));
    let mut nav = ListNav::new(3);
    nav.move_down();
    nav.move_down();
    assert_eq!(nav.selected(), Some(2));
}

#[test]
fn new_at_startet_am_vorgegebenen_cursor_und_klemmt() {
    let nav = ListNav::new_at(3, 1);
    assert_eq!(nav.len(), 3);
    assert_eq!(nav.cursor(), 1, "vorgewählter Cursor (sichere Option)");
    let nav = ListNav::new_at(3, 99);
    assert_eq!(nav.cursor(), 2);
    let nav = ListNav::new_at(0, 0);
    assert_eq!(nav.cursor(), 0);
}

#[test]
fn move_down_klemmt_am_ende() {
    let mut nav = ListNav::new(5);
    for _ in 0..5 {
        nav.move_down();
    }
    assert_eq!(nav.cursor(), 4);
    nav.move_down();
    assert_eq!(nav.cursor(), 4, "am Ende klemmt die Bewegung");
}

#[test]
fn move_up_klemmt_am_anfang() {
    let mut nav = ListNav::new(5);
    for _ in 0..3 {
        nav.move_down();
    }
    assert_eq!(nav.cursor(), 3);
    for _ in 0..5 {
        nav.move_up();
    }
    assert_eq!(nav.cursor(), 0, "am Anfang klemmt die Bewegung");
}

#[test]
fn wrap_dreht_am_rand_um() {
    let mut nav = ListNav::with_wrap_at(3, 0);
    assert_eq!(nav.cursor(), 0);
    nav.move_down();
    nav.move_down();
    assert_eq!(nav.cursor(), 2);
    nav.move_down();
    assert_eq!(nav.cursor(), 0);
    nav.move_up();
    assert_eq!(nav.cursor(), 2);
}

#[test]
fn wrap_mit_single_eintrag_bleibt_stabil() {
    let mut nav = ListNav::with_wrap_at(1, 0);
    nav.move_down();
    nav.move_down();
    assert_eq!(nav.cursor(), 0);
    nav.move_up();
    assert_eq!(nav.cursor(), 0);
}

#[test]
fn page_down_page_up_klemmen() {
    let mut nav = ListNav::new(10);
    assert_eq!(nav.cursor(), 0);
    nav.page_down(3);
    assert_eq!(nav.cursor(), 3);
    nav.page_down(100);
    assert_eq!(nav.cursor(), 9, "Seite über das Ende hinaus klemmen");
    nav.page_up(2);
    assert_eq!(nav.cursor(), 7);
    nav.page_up(100);
    assert_eq!(nav.cursor(), 0, "Seite über den Anfang hinaus klemmen");
    nav.page_down(0);
    assert_eq!(nav.cursor(), 1, "page 0 bewegt mindestens einen Schritt");
}

#[test]
fn page_dreht_beim_wrap_um() {
    let mut nav = ListNav::with_wrap_at(5, 0);
    nav.page_down(6);
    assert_eq!(nav.cursor(), 1, "6 mod 5 = 1");
    nav.page_up(6);
    assert_eq!(nav.cursor(), 0, "1 - 6 mod 5 = 0");
    nav.page_up(1);
    assert_eq!(nav.cursor(), 4, "Umlauf zurück an das Ende");
}

#[test]
fn to_top_und_to_bottom() {
    let mut nav = ListNav::new(10);
    nav.page_down(5);
    assert_eq!(nav.cursor(), 5);
    nav.move_bottom();
    assert_eq!(nav.cursor(), 9);
    nav.move_top();
    assert_eq!(nav.cursor(), 0);
}

#[test]
fn set_len_klemmt_cursor_und_offset() {
    let mut nav = ListNav::new(5);
    nav.page_down(4);
    assert_eq!(nav.cursor(), 4);
    nav.offset = 3;
    nav.set_len(2);
    assert_eq!(nav.len(), 2);
    assert_eq!(nav.cursor(), 1, "Cursor klemmt auf die neue Länge");
    assert_eq!(nav.offset(), 1, "Offset klemmt auf die neue Länge");

    nav.set_len(0);
    assert_eq!(nav.len(), 0);
    assert_eq!(nav.cursor(), 0);
    assert_eq!(nav.offset(), 0);
}

#[test]
fn follow_haelt_einzeiligen_cursor_im_fenster() {
    let mut nav = ListNav::new(20);
    nav.page_down(15);
    assert_eq!(nav.cursor(), 15);
    assert_eq!(nav.offset(), 0);
    nav.follow(10, |_| 1);
    assert_eq!(nav.offset(), 6, "offset = cursor+1-viewport = 15+1-10");
    assert!(nav.cursor() >= nav.offset());
    assert!(nav.cursor() < nav.offset() + 10);
}

#[test]
fn follow_laesst_offset_bei_passendem_cursor_unangetastet() {
    let mut nav = ListNav::new(20);
    nav.page_down(5);
    assert_eq!(nav.cursor(), 5);
    nav.follow(10, |_| 1);
    assert_eq!(
        nav.offset(),
        0,
        "Cursor passt ins Fenster – kein Scroll nötig"
    );
}

#[test]
fn follow_schiebt_fenster_bei_cursor_oberhalb_zurueck() {
    let mut nav = ListNav::new(20);
    nav.offset = 10;
    nav.move_top();
    nav.follow(10, |_| 1);
    assert_eq!(nav.offset(), 0, "Fenster folgt dem Cursor nach oben");
}

#[test]
fn follow_haelt_mehrzeiligen_eintrag_komplett_sichtbar() {
    let row_of = |i: usize| -> u16 {
        if i == 2 {
            4
        } else {
            1
        }
    };
    let mut nav = ListNav::new(10);
    nav.page_down(2);
    assert_eq!(nav.cursor(), 2);
    nav.follow(5, row_of);
    assert_eq!(nav.offset(), 1);
}

#[test]
fn follow_einziger_eintrag_hoeher_als_fenster_bleibt_am_cursor() {
    let row_of = |i: usize| -> u16 {
        if i == 2 {
            8
        } else {
            1
        }
    };
    let mut nav = ListNav::new(10);
    nav.offset = 0;
    nav.page_down(2);
    nav.follow(5, row_of);
    assert_eq!(nav.offset(), 2, "Offset stoppt am Cursor, nicht darüber");
    assert_eq!(nav.cursor(), 2);
}

#[test]
fn follow_mit_leerer_liste_oder_null_fenster_setzt_offset_null() {
    let mut nav = ListNav::new(0);
    nav.offset = 3;
    nav.follow(10, |_| 1);
    assert_eq!(nav.offset(), 0);

    let mut nav2 = ListNav::new(5);
    nav2.offset = 3;
    nav2.page_down(4);
    nav2.follow(0, |_| 1);
    assert_eq!(
        nav2.offset(),
        0,
        "kein Fenster → Scroll-Offset zurückgesetzt"
    );
}

#[test]
fn visible_liefert_den_fensterausschnitt() {
    let mut nav = ListNav::new(20);
    nav.offset = 5;
    assert_eq!(nav.visible(3), 5..8);
    nav.offset = 18;
    assert_eq!(nav.visible(3), 18..20, "Fenster klemmt an der Listenlänge");
    nav.offset = 10;
    assert_eq!(nav.visible(100), 10..20, "großes Fenster zeigt den Rest");
}

#[test]
fn visible_bei_leerer_liste_und_null_fenster() {
    assert_eq!(ListNav::new(0).visible(5), 0..0);
    let nav = ListNav::new(5);
    assert_eq!(nav.visible(0), 0..0);
}

fn key(code: KeyCode) -> KeyEvent {
    KeyEvent::new(code, KeyModifiers::none())
}

#[test]
fn handle_move_erkennt_pfeile_und_jk() {
    let mut nav = ListNav::new(5);
    assert!(nav.handle_move(&key(KeyCode::Down), 10, |_| 1));
    assert_eq!(nav.cursor(), 1);
    assert!(nav.handle_move(&key(KeyCode::Char('j')), 10, |_| 1));
    assert_eq!(nav.cursor(), 2);
    assert!(nav.handle_move(&key(KeyCode::Up), 10, |_| 1));
    assert_eq!(nav.cursor(), 1);
    assert!(nav.handle_move(&key(KeyCode::Char('k')), 10, |_| 1));
    assert_eq!(nav.cursor(), 0);
    assert!(nav.handle_move(&key(KeyCode::Up), 10, |_| 1));
    assert_eq!(nav.cursor(), 0);
}

#[test]
fn handle_move_ignoriert_fremde_tasten() {
    let mut nav = ListNav::new(5);
    nav.page_down(3);
    assert_eq!(nav.cursor(), 3);
    for code in [
        KeyCode::Enter,
        KeyCode::Esc,
        KeyCode::Char('r'),
        KeyCode::Char(' '),
    ] {
        assert!(!nav.handle_move(&key(code), 10, |_| 1));
    }
    assert_eq!(nav.cursor(), 3, "Cursor bleibt bei fremden Tasten");
}

#[test]
fn handle_move_unterstuetzt_seiten_und_spruenge() {
    let mut nav = ListNav::new(20);
    assert!(nav.handle_move(&key(KeyCode::PageDown), 10, |_| 1));
    assert_eq!(nav.cursor(), 10, "PgDn springt um die Fensterhöhe");
    assert!(nav.handle_move(&key(KeyCode::End), 10, |_| 1));
    assert_eq!(nav.cursor(), 19);
    assert!(nav.handle_move(&key(KeyCode::PageUp), 10, |_| 1));
    assert_eq!(nav.cursor(), 9, "PgUp springt zurück um die Fensterhöhe");
    assert!(nav.handle_move(&key(KeyCode::Home), 10, |_| 1));
    assert_eq!(nav.cursor(), 0);
}

#[test]
fn handle_move_laesst_cursor_im_fenster_und_scrolled_nach() {
    let mut nav = ListNav::new(30);
    nav.handle_move(&key(KeyCode::End), 10, |_| 1);
    assert_eq!(nav.offset(), 20);
    assert!(nav.cursor() < nav.offset() + 10);
}

#[test]
fn selection_navigation_und_selected() {
    let mut sel = Selection::new_at(vec![10, 20, 30], 0);
    assert_eq!(sel.selected(), Some(&10));
    assert!(sel.handle_move(&key(KeyCode::Down), 3));
    assert_eq!(sel.selected(), Some(&20));
    assert!(sel.handle_move(&key(KeyCode::Char('j')), 3));
    assert_eq!(sel.selected(), Some(&30));
    assert!(!sel.handle_move(&key(KeyCode::Char('r')), 3));
    assert_eq!(sel.nav.cursor(), 2);
}

#[test]
fn selection_new_at_und_set_items_klemmen_cursor() {
    let mut sel = Selection::new_at(vec![10, 20, 30], 2);
    assert_eq!(sel.nav.cursor(), 2);

    sel.set_items(vec![100]);
    assert_eq!(sel.nav.cursor(), 0);
    assert_eq!(sel.selected(), Some(&100));

    sel.set_items(vec![]);
    assert_eq!(sel.selected(), None);
}

#[test]
fn wrap_at_dreht_um_und_startet_am_cursor() {
    let mut sel = Selection::wrap_at(vec![10, 20, 30], 2);
    assert_eq!(sel.nav.cursor(), 2);
    assert!(sel.nav.wrap, "Builder-Spalten laufen um");
    sel.handle_move(&key(KeyCode::Down), 3);
    assert_eq!(sel.selected(), Some(&10));
    sel.handle_move(&key(KeyCode::Up), 3);
    assert_eq!(sel.selected(), Some(&30));
}

#[test]
fn push_haelt_nav_sync_und_set_cursor_klemmt() {
    let mut sel = Selection::wrap_at(vec![10, 20], 1);
    sel.push(30);
    assert_eq!(sel.nav.len(), 3, "push verlängert die Navigation");
    assert_eq!(sel.selected(), Some(&20), "Cursor bleibt wo er war");
    sel.set_cursor(99);
    assert_eq!(
        sel.nav.cursor(),
        2,
        "set_cursor klemmt auf das letzte Element"
    );
    assert_eq!(sel.selected(), Some(&30));
}

#[test]
fn visible_rows_zaehlt_zeilen_statt_eintraege() {
    let row_of = |i: usize| -> u16 {
        if i == 1 {
            2
        } else {
            1
        }
    };
    let mut nav = ListNav::new(4);
    nav.set_cursor(3);
    nav.follow(3, row_of);
    let range = nav.visible_rows(3, row_of);
    assert!(
        range == (2..4) || range == (1..4),
        "passt bei Höhe 3 nur 2–3 Einträge, war {range:?}"
    );
}

#[test]
fn visible_rows_zeigt_mindestens_einen_eintrag() {
    let mut nav = ListNav::new(5);
    let row_of = |i: usize| -> u16 {
        if i == 0 {
            99
        } else {
            1
        }
    };
    nav.follow(3, row_of);
    assert_eq!(nav.offset(), 0);
    let range = nav.visible_rows(3, row_of);
    assert_eq!(range, 0..1, "zeigt den (überhohen) Eintrag 0 trotzdem");
}
