use highfleet::general::escadra_string::EscadraString;
use highfleet::general::tll::{TLL, TLLRef};

fn node(a: Option<usize>, b: Option<usize>, c: Option<usize>, name: &str) -> TLL {
    TLL {
        a,
        b,
        c,
        end: false,
        flag: false,
        padding_1ah: 0,
        index: 0,
        string: EscadraString::from(name),
        unknown_40h: 0,
        padding_44h: 0,
        data1: 0,
        data2: 0,
        data3: 0,
    }
}

#[test]
fn tll_size() {
    let tll = node(None, None, None, "");
    assert_eq!(std::mem::size_of_val(&tll.pack(&[], 0)), 0x60);
}

#[test]
fn explore_single_element() {
    let nodes = vec![node(None, None, None, "alone")];
    let found = TLL::explore(&nodes, 0);
    assert_eq!(found.len(), 1);
    assert_eq!(found[&0], TLLRef { a: None, b: None, c: None });
}

#[test]
fn explore_follows_all_three_links() {
    let nodes = vec![
        node(Some(1), Some(2), Some(3), "root"),
        node(None, None, None, "a"),
        node(None, None, None, "b"),
        node(None, None, None, "c"),
        node(None, None, None, "apart"),
    ];
    let found = TLL::explore(&nodes, 0);
    let mut keys: Vec<usize> = found.keys().copied().collect();
    keys.sort();
    assert_eq!(keys, vec![0, 1, 2, 3]);
    assert_eq!(found[&0], TLLRef { a: Some(1), b: Some(2), c: Some(3) });
    assert_eq!(found[&3], TLLRef { a: None, b: None, c: None });
}

#[test]
fn explore_ends_on_cycles() {
    let nodes = vec![
        node(Some(1), None, None, "first"),
        node(None, Some(2), None, "second"),
        node(None, None, Some(0), "third"),
    ];
    let found = TLL::explore(&nodes, 1);
    let mut keys: Vec<usize> = found.keys().copied().collect();
    keys.sort();
    assert_eq!(keys, vec![0, 1, 2]);
    assert_eq!(found[&2], TLLRef { a: None, b: None, c: Some(0) });
}

#[test]
fn explore_element_that_links_to_itself() {
    let nodes = vec![node(Some(0), Some(0), Some(0), "self")];
    let found = TLL::explore(&nodes, 0);
    assert_eq!(found.len(), 1);
    assert_eq!(found[&0], TLLRef { a: Some(0), b: Some(0), c: Some(0) });
}

#[test]
fn explore_keeps_links_that_lead_nowhere() {
    let nodes = vec![node(Some(9), None, Some(1), "root"), node(None, None, None, "c")];
    let found = TLL::explore(&nodes, 0);
    let mut keys: Vec<usize> = found.keys().copied().collect();
    keys.sort();
    assert_eq!(keys, vec![0, 1]);
    assert_eq!(found[&0], TLLRef { a: Some(9), b: None, c: Some(1) });
}

#[test]
fn explore_from_no_element_finds_nothing() {
    let nodes = vec![node(None, None, None, "alone")];
    assert!(TLL::explore(&nodes, 1).is_empty());
    assert!(TLL::explore(&[], 0).is_empty());
}

#[test]
fn listing_lists_before_children_and_in_link_order() {
    let nodes = vec![
        node(Some(1), Some(2), Some(3), "root"),
        node(Some(4), None, None, "a"),
        node(None, None, None, "b"),
        node(None, None, None, "c"),
        node(None, None, None, "a.a"),
    ];
    assert_eq!(TLL::listing(&nodes, 0), vec![(0, 0), (1, 1), (2, 4), (1, 2), (1, 3)]);
}

#[test]
fn listing_lists_shared_element_once_where_first_met() {
    let nodes = vec![
        node(Some(1), Some(2), None, "root"),
        node(None, None, Some(2), "a"),
        node(Some(0), None, None, "shared"),
    ];
    assert_eq!(TLL::listing(&nodes, 0), vec![(0, 0), (1, 1), (2, 2)]);
}

#[test]
fn listing_of_a_chain_goes_one_level_deeper_each_time() {
    let nodes = vec![
        node(None, None, Some(1), "0"),
        node(None, Some(2), None, "1"),
        node(Some(3), None, None, "2"),
        node(Some(0), None, None, "3"),
    ];
    assert_eq!(TLL::listing(&nodes, 0), vec![(0, 0), (1, 1), (2, 2), (3, 3)]);
    assert_eq!(TLL::listing(&nodes, 2), vec![(0, 2), (1, 3), (2, 0), (3, 1)]);
}

#[test]
fn listing_from_no_element_lists_nothing() {
    let nodes = vec![node(None, None, None, "alone")];
    assert!(TLL::listing(&nodes, 3).is_empty());
}

#[test]
fn listing_lists_what_explore_finds() {
    let nodes = vec![
        node(Some(3), Some(1), None, "0"),
        node(Some(1), Some(0), Some(5), "1"),
        node(Some(0), None, None, "2"),
        node(None, Some(4), None, "3"),
        node(None, None, Some(3), "4"),
    ];
    for root in 0..nodes.len() {
        let mut listed: Vec<usize> = TLL::listing(&nodes, root).iter().map(|v| v.1).collect();
        listed.sort();
        let mut found: Vec<usize> = TLL::explore(&nodes, root).keys().copied().collect();
        found.sort();
        assert_eq!(listed, found);
    }
}

#[test]
fn pack_puts_each_field_at_its_offset() {
    let mut tll = node(Some(1), None, Some(0), "Banana");
    tll.end = true;
    tll.padding_1ah = 0x0102;
    tll.index = 0x0a0b0c0d;
    tll.unknown_40h = 0x11223344;
    tll.padding_44h = 0x55667788;
    tll.data1 = 0x1000;
    tll.data2 = 0x2000;
    tll.data3 = 0x0807060504030201;
    let record = tll.pack(&[0x7000, 0x7060], 0);
    assert_eq!(record[0x00..0x08], 0x7060u64.to_le_bytes());
    assert_eq!(record[0x08..0x10], [0u8; 8]);
    assert_eq!(record[0x10..0x18], 0x7000u64.to_le_bytes());
    assert_eq!(record[0x18..0x1a], [1, 0]);
    assert_eq!(record[0x1a..0x1c], [0x02, 0x01]);
    assert_eq!(record[0x1c..0x20], [0x0d, 0x0c, 0x0b, 0x0a]);
    assert_eq!(record[0x20..0x40], tll.string.pack(0));
    assert_eq!(record[0x40..0x44], [0x44, 0x33, 0x22, 0x11]);
    assert_eq!(record[0x44..0x48], [0x88, 0x77, 0x66, 0x55]);
    assert_eq!(record[0x48..0x50], 0x1000u64.to_le_bytes());
    assert_eq!(record[0x50..0x58], 0x2000u64.to_le_bytes());
    assert_eq!(record[0x58..0x60], [1, 2, 3, 4, 5, 6, 7, 8]);
}

#[test]
fn pack_writes_a_link_that_leads_nowhere_as_null() {
    let tll = node(Some(5), None, None, "");
    let record = tll.pack(&[0x7000], 0);
    assert_eq!(record[0x00..0x18], [0u8; 0x18]);
}

#[test]
fn print_writes_an_element() {
    let mut tll = node(Some(3), None, Some(0), "Banana");
    tll.end = true;
    tll.padding_1ah = 513;
    tll.index = 70000;
    tll.unknown_40h = 4294967295;
    tll.padding_44h = 10;
    tll.data1 = 0x7ffd_1234_5678;
    tll.data2 = 0xabcdef;
    let lines = TLL::print(&[tll], 0);
    assert_eq!(
        lines,
        vec![
            "TLL 0 {",
            "  a: 3",
            "  b: null",
            "  c: 0",
            "  end: true",
            "  flag: false",
            "  padding_1ah: 513",
            "  index: 70000",
            "  string: EscadraString { string: \"Banana\", length: 6, max_length: 15 }",
            "  unknown_40h: 4294967295",
            "  padding_44h: 10",
            "  data1: 0x7ffd12345678",
            "  data2: 0xabcdef",
            "  data3: 0x0",
            "}",
        ]
    );
}

#[test]
fn print_indents_by_depth() {
    let nodes = vec![
        node(Some(1), Some(3), None, "root"),
        node(None, None, Some(2), "a"),
        node(Some(0), None, None, "a.c"),
        node(None, None, None, "b"),
    ];
    let lines = TLL::print(&nodes, 0);
    assert_eq!(lines.len(), 60);
    assert_eq!(lines[0], "TLL 0 {");
    assert_eq!(lines[14], "}");
    assert_eq!(lines[15], "  TLL 1 {");
    assert_eq!(lines[18], "    c: 2");
    assert_eq!(lines[29], "  }");
    assert_eq!(lines[30], "    TLL 2 {");
    assert_eq!(lines[31], "      a: 0");
    assert_eq!(
        lines[38],
        "      string: EscadraString { string: \"a.c\", length: 3, max_length: 15 }"
    );
    assert_eq!(lines[44], "    }");
    assert_eq!(lines[45], "  TLL 3 {");
    assert_eq!(lines[59], "  }");
}

#[test]
fn print_writes_the_elements_of_the_listing() {
    let nodes = vec![
        node(Some(3), Some(1), None, "0"),
        node(Some(1), Some(0), Some(5), "1"),
        node(Some(0), None, None, "2"),
        node(None, Some(4), None, "3"),
        node(None, None, Some(3), "4"),
    ];
    for root in 0..nodes.len() {
        let lines = TLL::print(&nodes, root);
        let listing = TLL::listing(&nodes, root);
        assert_eq!(lines.len(), 15 * listing.len());
        for (i, (depth, at)) in listing.into_iter().enumerate() {
            let string = nodes[at].string.debug_string();
            assert_eq!(lines[15 * i..15 * i + 15], nodes[at].print_element_with(depth, at, &string));
            assert_eq!(lines[15 * i], format!("{}TLL {} {{", "  ".repeat(depth), at));
        }
    }
}

#[test]
fn print_from_no_element_writes_nothing() {
    let nodes = vec![node(None, None, None, "alone")];
    assert!(TLL::print(&nodes, 1).is_empty());
}

#[test]
fn print_element_with_takes_the_string_as_it_is_given() {
    let tll = node(None, Some(12), None, "Banana");
    let lines = tll.print_element_with(2, 7, "<the string>");
    assert_eq!(lines.len(), 15);
    assert_eq!(lines[0], "    TLL 7 {");
    assert_eq!(lines[2], "      b: 12");
    assert_eq!(lines[8], "      string: <the string>");
    assert_eq!(lines[14], "    }");
}

#[test]
fn debug_string_of_an_element() {
    let mut tll = node(Some(1), None, None, "Banana");
    tll.flag = true;
    tll.padding_1ah = 7;
    tll.index = 42;
    tll.unknown_40h = 1;
    tll.padding_44h = 2;
    tll.data1 = 0x10;
    tll.data2 = 0xff00;
    tll.data3 = u64::MAX;
    assert_eq!(
        tll.debug_string(),
        "TLL { end: false, flag: true, padding_1ah: 7, index: 42, unknown_40h: 1, \
         padding_44h: 2, data1: 0x10, data2: 0xff00, data3: 0xffffffffffffffff }"
    );
}
