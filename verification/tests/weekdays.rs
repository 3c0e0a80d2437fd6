use timer_schedule::{parse_field, Dow};

const NAMES: [(&str, Dow, usize); 7] = [
    ("SUN", Dow::Sun, 0),
    ("MON", Dow::Mon, 1),
    ("TUE", Dow::Tue, 2),
    ("WED", Dow::Wed, 3),
    ("THU", Dow::Thu, 4),
    ("FRI", Dow::Fri, 5),
    ("SAT", Dow::Sat, 6),
];

#[test]
fn weekday_table() {
    for (name, day, number) in NAMES {
        assert_eq!(Ok(day), Dow::from_str(name));
        assert_eq!(number, day.index());
        assert_eq!(vec![number], parse_field(name, 0, 6).unwrap().to_vec());
    }
}

#[test]
fn weekday_names_ignore_case() {
    for (name, day, _) in NAMES {
        let lower = name.to_lowercase();
        assert_eq!(Ok(day), Dow::from_str(&lower));
        let mixed: String = name
            .chars()
            .enumerate()
            .map(|(i, c)| if i % 2 == 0 { c.to_ascii_lowercase() } else { c })
            .collect();
        assert_eq!(Ok(day), Dow::from_str(&mixed));
    }
    assert_eq!(vec![2, 3, 6], parse_field("sat,Tue,wEd", 0, 6).unwrap().to_vec());
}

#[test]
fn other_texts_name_no_weekday() {
    for s in ["", "SU", "SUNX", "SUNDAY", "S UN", "1", "ABC", "MO N", "sun ", "SÜN", "S\u{0}N"] {
        assert_eq!(Err(()), Dow::from_str(s), "{:?}", s);
    }
}

#[test]
fn weekday_names_follow_uppercasing() {
    // Any character whose uppercase form is a letter of a name may stand for
    // that letter: beside the small letters, the long s and the dotless i.
    let mut odd: Vec<char> = Vec::new();
    for code in 0..=0x10FFFFu32 {
        let c = match char::from_u32(code) {
            Some(c) => c,
            None => continue,
        };
        let upper: String = c.to_uppercase().collect();
        for (name, day, _) in NAMES {
            for at in 0..3 {
                if name[at..at + 1] == upper {
                    let token: String = name
                        .chars()
                        .enumerate()
                        .map(|(i, n)| if i == at { c } else { n })
                        .collect();
                    assert_eq!(name, token.to_uppercase());
                    assert_eq!(Ok(day), Dow::from_str(&token), "{:?}", token);
                    if !c.is_ascii() && !odd.contains(&c) {
                        odd.push(c);
                    }
                }
            }
        }
    }
    assert_eq!(vec!['\u{131}', '\u{17f}'], odd);
}

#[test]
fn uppercasing_to_a_name_means_naming_it() {
    // Every text of up to three characters drawn from those that uppercase
    // into letters of the names is read as the standard uppercasing reads it.
    let mut pool: Vec<char> = Vec::new();
    for code in 0..=0x10FFFFu32 {
        if let Some(c) = char::from_u32(code) {
            let upper: String = c.to_uppercase().collect();
            if !upper.is_empty() && upper.chars().all(|u| "SUNMOTEWDHFRIA".contains(u)) {
                pool.push(c);
            }
        }
    }
    assert!(pool.len() < 64);
    let mut texts: Vec<String> = vec![String::new()];
    for a in &pool {
        texts.push(a.to_string());
        for b in &pool {
            texts.push(format!("{}{}", a, b));
            for c in &pool {
                texts.push(format!("{}{}{}", a, b, c));
            }
        }
    }
    for text in texts {
        let upper = text.to_uppercase();
        let want = NAMES.iter().find(|(name, _, _)| *name == upper).map(|(_, day, _)| *day);
        assert_eq!(want.ok_or(()), Dow::from_str(&text), "{:?}", text);
    }
}
