use idol_catalog::get_group::{self, get_group_api, group_reply};
use idol_catalog::get_groups::{
    get_groups_api, groups_reply, name_le_str, sort_by_name, Group, GroupsQuery,
};
use idol_catalog::get_members::{get_members_api, members_reply, Member};
use idol_catalog::reply::{lookup_reply, Status};
use idol_catalog::text::{is_white_space_char, trim};

fn g(name: &str, ticker: &str) -> Group {
    Group { name: name.to_string(), logo: format!("{}.png", ticker), ticker: ticker.to_string() }
}

#[test]
fn trim_matches_str_trim() {
    for s in ["  abc \t", "\u{3000}x\u{a0}", "", "   ", "a b", "\n\r\u{2028}y\u{85}", "\u{200b}z"] {
        assert_eq!(trim(s), s.trim());
    }
}

#[test]
fn whitespace_matches_char_is_whitespace() {
    for c in ['\t', '\n', '\u{b}', '\u{c}', '\r', ' ', '\u{85}', '\u{a0}', '\u{1680}', '\u{2000}',
              '\u{200a}', '\u{2028}', '\u{2029}', '\u{202f}', '\u{205f}', '\u{3000}', 'a', '\u{200b}',
              '\u{feff}', '\u{180e}', '0', '\u{e}'] {
        assert_eq!(is_white_space_char(c), c.is_whitespace(), "{:?}", c);
    }
}

#[test]
fn listing_query_for_gender_and_type() {
    match get_groups_api("group", "boy").unwrap() {
        GroupsQuery::OfGenderAndType { gender, group_type } => {
            assert_eq!(gender, "boy");
            assert_eq!(group_type, "group");
        }
        q => panic!("unexpected {:?}", q),
    }
    match get_groups_api(" solo ", " girl").unwrap() {
        GroupsQuery::OfGenderAndType { gender, group_type } => {
            assert_eq!(gender, "girl");
            assert_eq!(group_type, "solo");
        }
        q => panic!("unexpected {:?}", q),
    }
}

#[test]
fn listing_query_for_all_genders() {
    assert_eq!(
        get_groups_api("solo", "all\t").unwrap(),
        GroupsQuery::OfType { group_type: "solo".to_string() }
    );
}

#[test]
fn listing_refuses_unknown_segments() {
    for (t, gender) in [("band", "boy"), ("group", "man"), ("Group", "boy"), ("group", "ALL"), ("", "")] {
        let r = get_groups_api(t, gender).unwrap_err();
        assert_eq!(r.status, Status::InternalServerError);
        assert_eq!(r.body, "");
    }
}

#[test]
fn sort_orders_by_name_stably() {
    let rows = vec![g("b", "B1"), g("a", "A1"), g("b", "B2"), g("A", "A0"), g("é", "E"), g("z", "Z"), g("a", "A2")];
    let mut expected = vec![g("b", "B1"), g("a", "A1"), g("b", "B2"), g("A", "A0"), g("é", "E"), g("z", "Z"), g("a", "A2")];
    expected.sort_by_key(|x| x.name.clone());
    let sorted = sort_by_name(rows);
    assert_eq!(sorted, expected);
    let tickers: Vec<&str> = sorted.iter().map(|x| x.ticker.as_str()).collect();
    assert_eq!(tickers, vec!["A0", "A1", "A2", "B1", "B2", "Z", "E"]);
}

#[test]
fn sort_keeps_sorted_listing() {
    let rows = vec![g("a", "1"), g("ab", "2"), g("b", "3")];
    let sorted = sort_by_name(vec![g("a", "1"), g("ab", "2"), g("b", "3")]);
    assert_eq!(sorted, rows);
    assert!(sort_by_name(vec![]).is_empty());
}

#[test]
fn name_order_is_string_order() {
    let names = ["", "a", "ab", "b", "B", "é", "z", "aa", "a\u{0}"];
    for x in names {
        for y in names {
            assert_eq!(name_le_str(x, y), x <= y, "{:?} {:?}", x, y);
        }
    }
}

#[test]
fn listing_reply_sorts_or_fails() {
    let r = groups_reply(None).unwrap_err();
    assert_eq!(r.status, Status::InternalServerError);
    let ok = groups_reply(Some(vec![g("y", "Y"), g("x", "X")])).unwrap();
    assert_eq!(ok, vec![g("x", "X"), g("y", "Y")]);
}

#[test]
fn group_lookup_trims_ticker() {
    assert_eq!(get_group_api("  TWICE "), "TWICE");
    let found = get_group::Group { name: "Twice".to_string(), logo: "t.png".to_string() };
    let r = group_reply(Some(found)).unwrap();
    assert_eq!(r.name, "Twice");
    let e = group_reply(None).unwrap_err();
    assert_eq!(e.status, Status::InternalServerError);
    assert_eq!(e.body, "");
}

#[test]
fn member_lookup_keeps_order() {
    assert_eq!(get_members_api("\tIVE\n"), "IVE");
    let members = vec![
        Member { name: "Z".to_string(), profile_image: "z.png".to_string() },
        Member { name: "A".to_string(), profile_image: "a.png".to_string() },
    ];
    let r = members_reply(Some(members)).unwrap();
    assert_eq!(r[0].name, "Z");
    assert_eq!(r[1].name, "A");
    let e = members_reply(None).unwrap_err();
    assert_eq!(e.status, Status::InternalServerError);
}

#[test]
fn lookup_reply_passes_rows() {
    assert_eq!(lookup_reply(Some(3)).unwrap(), 3);
    assert_eq!(lookup_reply::<u8>(None).unwrap_err().status, Status::InternalServerError);
}

#[test]
fn trim_twice_is_trim_once() {
    for s in [" a ", "\u{3000}\u{3000}", "x", " \u{a0} y z \t"] {
        let once = trim(s);
        assert_eq!(trim(&once), once);
    }
}

#[test]
fn sorting_sorted_listing_changes_nothing() {
    let once = sort_by_name(vec![g("c", "1"), g("a", "2"), g("c", "3"), g("b", "4")]);
    let again = sort_by_name(vec![g("a", "2"), g("b", "4"), g("c", "1"), g("c", "3")]);
    assert_eq!(once, again);
    let twice = sort_by_name(once);
    assert_eq!(twice, again);
}
