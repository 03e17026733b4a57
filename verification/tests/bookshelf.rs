use my_library::library::book::Book;
use my_library::library::bookshelf::{pick_books, Bookshelf, TitleMatcher};
use my_library::{_function_1, _function_2};

#[test]
fn should_be_fuzzy_searched_books() {
    let book1 = Book::new("すごいぞChatGPT！AIを使って学ぼうRust！", "山田太郎");
    let book2 = Book::new("Pythonプログラミング入門", "田中花子");

    let mut shelf = Bookshelf::default();
    shelf.add_book(book1);
    shelf.add_book(book2);

    let found_books = shelf.search_books("chatgpt");
    println!("{:?}", found_books);
}

#[test]
fn search_finds_the_matching_titles_in_shelf_order() {
    let mut shelf = Bookshelf::new();
    shelf.add_book(Book::new("すごいぞChatGPT！AIを使って学ぼうRust！", "山田太郎"));
    shelf.add_book(Book::new("Pythonプログラミング入門", "田中花子"));
    shelf.add_book(Book::new("Rust by Example", "Someone"));

    let found: Vec<&str> = shelf.search_books("chatgpt").iter().map(|b| b.title.as_str()).collect();
    assert_eq!(found, vec!["すごいぞChatGPT！AIを使って学ぼうRust！"]);

    let found: Vec<&str> = shelf.search_books("python").iter().map(|b| b.author.as_str()).collect();
    assert_eq!(found, vec!["田中花子"]);

    let found: Vec<&str> = shelf.search_books("rust").iter().map(|b| b.title.as_str()).collect();
    assert_eq!(found, vec!["すごいぞChatGPT！AIを使って学ぼうRust！", "Rust by Example"]);

    assert!(shelf.search_books("cobol").is_empty());
    assert_eq!(shelf.search_books("").len(), 3);
}

#[test]
fn search_respects_upper_case_in_the_query() {
    let mut shelf = Bookshelf::new();
    shelf.add_book(Book::new("Rust by Example", "Someone"));
    shelf.add_book(Book::new("trust and rust", "Nobody"));
    assert_eq!(shelf.search_books("rust").len(), 2);
    let found: Vec<&str> = shelf.search_books("Rust").iter().map(|b| b.author.as_str()).collect();
    assert_eq!(found, vec!["Someone"]);
}

#[test]
fn over_long_texts_are_not_searchable() {
    let mut shelf = Bookshelf::new();
    shelf.add_book(Book::new("Rust by Example", "Someone"));
    assert!(shelf.can_search("rust"));
    assert!(shelf.can_search(""));
    let long = "a".repeat(0x100_0000);
    assert!(shelf.can_search(&long));
    let longer = "a".repeat(0x100_0001);
    assert!(!shelf.can_search(&longer));
    shelf.add_book(Book::new(&longer, "Anyone"));
    assert!(!shelf.can_search("rust"));
}

#[test]
fn empty_shelf_finds_nothing() {
    let shelf = Bookshelf::new();
    assert!(shelf.search_books("rust").is_empty());
    assert!(Bookshelf::default().search_books("").is_empty());
    _function_1();
    _function_2();
}

#[test]
fn book_keeps_its_title_and_author() {
    let book = Book::new("Pythonプログラミング入門", "田中花子");
    assert_eq!(book.title, "Pythonプログラミング入門");
    assert_eq!(book.author, "田中花子");
}

#[test]
fn search_does_not_depend_on_earlier_searches() {
    let mut shelf = Bookshelf::new();
    shelf.add_book(Book::new("aab", "First"));
    shelf.add_book(Book::new("x a", "Second"));
    shelf.add_book(Book::new("abx", "Third"));
    let authors = |shelf: &Bookshelf, query: &str| -> Vec<String> {
        shelf.search_books(query).iter().map(|b| b.author.clone()).collect()
    };
    let first = authors(&shelf, "aab");
    assert_eq!(first, vec!["First"]);
    assert_eq!(authors(&shelf, "a"), vec!["First", "Second", "Third"]);
    assert_eq!(authors(&shelf, "ab"), vec!["First", "Third"]);
    assert_eq!(authors(&shelf, "aab"), first);
    assert!(authors(&shelf, "abc").is_empty());
    assert_eq!(authors(&shelf, "aab"), first);
}

#[test]
fn pattern_is_found_where_its_characters_occur_in_order() {
    let matcher = TitleMatcher::new();
    assert!(matcher.finds("xaxb", "ab"));
    assert!(!matcher.finds("xaxb", "ba"));
    assert!(matcher.finds("axbycz", "abc"));
    assert!(!matcher.finds("abc", "abx"));
    assert!(matcher.finds("abcdefaghi", ""));
    assert!(matcher.finds("", ""));
    assert!(!matcher.finds("", "a"));
    assert!(!matcher.finds("abcdefaghi", "中"));
    assert!(matcher.finds("日本語の本", "本本"));
    assert!(!matcher.finds("日本語の本", "本本本"));
}

#[test]
fn case_counts_only_where_the_pattern_has_an_upper_case_letter() {
    let matcher = TitleMatcher::new();
    assert!(matcher.finds("AB", "ab"));
    assert!(matcher.finds("ab", "ab"));
    assert!(!matcher.finds("ab", "Ab"));
    assert!(matcher.finds("Ab", "Ab"));
    assert!(!matcher.finds("AB", "Ab"));
    assert!(!matcher.finds("ab", "aB"));
    assert!(!matcher.finds("Ärger", "ärger"));
    assert!(matcher.finds("ärger", "ärger"));
    assert!(matcher.finds("ÄRGER", "Ärger"));
    assert!(!matcher.finds("ärger", "ÄRGER"));
    assert!(!matcher.finds("a[b", "A{b"));
    assert!(matcher.finds("a[b", "a[b"));
    assert!(!matcher.finds("a{b", "a[b"));
    assert!(!matcher.finds("a@b", "a`b"));
}

#[test]
fn books_are_picked_by_their_marks() {
    let books = vec![Book::new("a", "1"), Book::new("b", "2"), Book::new("c", "3")];
    let titles = |hits: &[bool]| -> Vec<String> {
        pick_books(&books, hits).iter().map(|b| b.title.clone()).collect()
    };
    assert_eq!(titles(&[true, false, true]), vec!["a", "c"]);
    assert_eq!(titles(&[false, true, false]), vec!["b"]);
    assert_eq!(titles(&[true, true, true]), vec!["a", "b", "c"]);
    assert!(titles(&[false, false, false]).is_empty());
    assert_eq!(titles(&[true]), vec!["a"]);
    assert_eq!(titles(&[false, true, true, true, true]), vec!["b", "c"]);
    assert!(titles(&[]).is_empty());
    assert!(pick_books(&[], &[true, true]).is_empty());
}

/// The rule by which a pattern is found, written out for comparison.
fn occurs(choice: &str, pattern: &str) -> bool {
    let exactly = pattern.chars().any(|p| p.is_ascii_uppercase());
    let mut wanted = pattern.chars().peekable();
    for c in choice.chars() {
        match wanted.peek() {
            Some(&p) => {
                let same = if exactly { c == p } else { c.eq_ignore_ascii_case(&p) };
                if same {
                    wanted.next();
                }
            }
            None => break,
        }
    }
    wanted.peek().is_none()
}

#[test]
fn matcher_finds_exactly_what_the_rule_says() {
    let letters = ['a', 'A', 'b', 'B', 'z', 'Z', '[', '{', '@', '`', ' ', 'ä', 'Ä', '本'];
    let mut seed: u64 = 7;
    let mut draw = |bound: u64| {
        seed = seed.wrapping_mul(6364136223846793005).wrapping_add(1442695040888963407);
        (seed >> 33) % bound
    };
    let matcher = TitleMatcher::new();
    let mut found = 0;
    for _ in 0..20000 {
        let choice: String =
            (0..draw(8)).map(|_| letters[draw(letters.len() as u64) as usize]).collect();
        let pattern: String =
            (0..draw(4)).map(|_| letters[draw(letters.len() as u64) as usize]).collect();
        let expected = occurs(&choice, &pattern);
        assert_eq!(matcher.finds(&choice, &pattern), expected, "{:?} in {:?}", pattern, choice);
        if expected {
            found += 1;
        }
    }
    assert!(found > 1000 && found < 19000);
}
