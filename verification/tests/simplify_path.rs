use myvec::simplify_path::{place, simplify};

#[test]
fn works_tail_slash() {
    let input = "/home/";
    assert_eq!(simplify(input), "/home");
}

#[test]
fn works_dot() {
    let input = "/./";
    assert_eq!(simplify(input), "/");
}

#[test]
fn works_double_dot() {
    let input = "/home/../";
    assert_eq!(simplify(input), "/");
}

#[test]
fn works_trible_dot() {
    let input = "/.../";
    assert_eq!(simplify(input), "/");
}

#[test]
fn works_dup_slash() {
    let input = "/home//foo/";
    assert_eq!(simplify(input), "/home/foo");
}

#[test]
fn works_complex() {
    let input = "/a/./b/.../.../c/";
    assert_eq!(simplify(input), "/c");
}

#[test]
fn empty_path_is_the_root() {
    assert_eq!(simplify(""), "/");
    assert_eq!(simplify("/"), "/");
    assert_eq!(simplify("///"), "/");
}

#[test]
fn path_without_leading_slash_gets_one() {
    assert_eq!(simplify("a/b"), "/a/b");
    assert_eq!(simplify("a"), "/a");
}

#[test]
fn going_up_from_the_root_stays_there() {
    assert_eq!(simplify("/../a"), "/a");
    assert_eq!(simplify("/../../.."), "/");
}

#[test]
fn going_up_takes_one_part_back_each_time() {
    assert_eq!(simplify("/a/b/c/../.."), "/a");
    assert_eq!(simplify("/a/b/.../d"), "/a/d");
}

#[test]
fn four_dots_are_a_name() {
    assert_eq!(simplify("/a/..../b"), "/a/..../b");
    assert_eq!(simplify("/.a/b."), "/.a/b.");
}

#[test]
fn parts_are_judged_trimmed_and_kept_untrimmed() {
    assert_eq!(simplify("/a/ .. /b"), "/b");
    assert_eq!(simplify("/a/ . /b"), "/a/b");
    assert_eq!(simplify("/a/   /b"), "/a/b");
    assert_eq!(simplify("/a/\t...\n/b"), "/b");
    assert_eq!(simplify("/ a /b "), "/ a /b ");
    assert_eq!(simplify("/. ./b"), "/. ./b");
}

#[test]
fn characters_of_several_bytes() {
    assert_eq!(simplify("/é/ü/../日本"), "/é/日本");
    assert_eq!(simplify("/é/\u{3000}..\u{3000}/x"), "/x");
}

#[test]
fn place_passes_over_keeps_and_takes_back() {
    let mut items = vec!["a", "b"];
    place(&mut items, " . ", ".");
    assert_eq!(items, vec!["a", "b"]);
    place(&mut items, "", "");
    assert_eq!(items, vec!["a", "b"]);
    place(&mut items, " c ", "c");
    assert_eq!(items, vec!["a", "b", " c "]);
    place(&mut items, "..", "..");
    assert_eq!(items, vec!["a", "b"]);
    place(&mut items, "...", "...");
    assert_eq!(items, vec!["a"]);
    place(&mut items, "....", "....");
    assert_eq!(items, vec!["a", "...."]);
    place(&mut items, "..", "..");
    place(&mut items, "..", "..");
    place(&mut items, "..", "..");
    assert_eq!(items, Vec::<&str>::new());
}

/// The same simplifying, written with the standard library's own splitting
/// and joining.
fn model(path: &str) -> String {
    let mut kept: Vec<&str> = Vec::new();
    for part in path.split('/') {
        let judged = part.trim();
        if judged == "." || judged.is_empty() {
        } else if judged == ".." || judged == "..." {
            kept.pop();
        } else {
            kept.push(part);
        }
    }
    format!("/{}", kept.join("/"))
}

#[test]
fn agrees_with_the_standard_splitting_on_every_short_path() {
    let letters = ['/', '.', ' ', 'a', 'é'];
    let mut paths = vec![String::new()];
    let mut tried = 0;
    for _ in 0..6 {
        let mut longer = Vec::new();
        for path in &paths {
            for letter in letters {
                let mut next = path.clone();
                next.push(letter);
                assert_eq!(simplify(&next), model(&next));
                tried += 1;
                longer.push(next);
            }
        }
        paths = longer;
    }
    assert_eq!(tried, 5 + 25 + 125 + 625 + 3125 + 15625);
}
