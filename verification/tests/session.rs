use flashcard::cards_ui::{CardsUI, BASE_HINTS};
use flashcard::org::FlashCard;
use flashcard::sr::Stats;

fn card(n: i64, doc: i64) -> FlashCard {
    FlashCard::from_db(
        &format!("question {}", n),
        &format!("answer {}, ", n),
        n,
        doc,
        Stats::new(),
        100,
        100,
    )
}

fn batch(n: i64) -> Vec<FlashCard> {
    (1..=n).map(|k| card(k, 10 * k)).collect()
}

#[test]
fn new_session_is_empty() {
    let s = CardsUI::new();
    assert_eq!(s.len(), 0);
    assert!(!s.is_done());
    assert!(!s.is_reveal());
    assert!(!s.is_repeat());
    assert_eq!(s.active_card(), 0);
    assert_eq!(s.show(), None);
    assert_eq!(s.show_content(), None);
    assert_eq!(s.pending_cards(), Vec::<usize>::new());
    assert_eq!(BASE_HINTS, 4);
}

#[test]
fn fetch_loads_up_to_the_count() {
    let mut s = CardsUI::new();
    s.fetch(batch(5), 3);
    assert_eq!(s.len(), 3);
    assert_eq!(s.get_cards()[2].get_questions(), "question 3");
    for i in 0..3 {
        assert_eq!(s.is_graded(i), Some(false));
        assert_eq!(s.hints_left(i), Some(4));
    }
    assert_eq!(s.is_graded(3), None);
    assert_eq!(s.hints_left(3), None);
    assert_eq!(s.active_card(), 0);
    s.fetch(batch(2), 25);
    assert_eq!(s.len(), 2);
    s.fetch(batch(2), 0);
    assert_eq!(s.len(), 0);
    s.fetch(batch(2), -1);
    assert_eq!(s.len(), 0);
}

#[test]
fn fetch_keeps_the_active_card_and_clears_the_flags() {
    let mut s = CardsUI::new();
    s.fetch(batch(3), 3);
    s.next_at(2);
    s.reveal_answer();
    s.grade();
    assert_eq!(s.is_graded(2), Some(true));
    s.fetch(batch(3), 3);
    assert_eq!(s.active_card(), 2);
    assert_eq!(s.is_graded(2), Some(false));
    assert_eq!(s.hints_left(2), Some(4));
    assert!(s.is_reveal());
}

#[test]
fn three_cards_until_done() {
    let mut rng = rand::thread_rng();
    let mut s = CardsUI::new();
    s.fetch(batch(3), 3);
    for _ in 0..20 {
        s.next(&mut rng);
        assert!(!s.is_done());
        assert!(s.active_card() < 3);
    }
    let mut seen = Vec::new();
    for round in 0..3 {
        assert!(!s.is_done());
        let active = s.active_card();
        assert!(!seen.contains(&active));
        assert_eq!(s.is_graded(active), Some(false));
        seen.push(active);
        s.update_and_next(&mut rng);
        assert_eq!(s.is_graded(active), Some(true));
        assert_eq!(s.is_done(), round == 2);
    }
    seen.sort();
    assert_eq!(seen, vec![0, 1, 2]);
    s.next(&mut rng);
    assert!(s.is_done());
}

#[test]
fn graded_cards_are_not_drawn_again() {
    let mut rng = rand::thread_rng();
    for _ in 0..50 {
        let mut s = CardsUI::new();
        s.fetch(batch(6), 6);
        s.next(&mut rng);
        let mut graded = Vec::new();
        while !s.is_done() {
            let active = s.active_card();
            assert!(!graded.contains(&active));
            graded.push(active);
            s.update_and_next(&mut rng);
            // looking at the next card again never brings a graded one back
            for _ in 0..5 {
                s.next(&mut rng);
                if !s.is_done() {
                    assert!(!graded.contains(&s.active_card()));
                }
            }
        }
        assert_eq!(graded.len(), 6);
    }
}

#[test]
fn draw_covers_every_pending_card() {
    let mut rng = rand::thread_rng();
    let mut s = CardsUI::new();
    s.fetch(batch(4), 4);
    let mut seen = [false; 4];
    for _ in 0..400 {
        s.next(&mut rng);
        seen[s.active_card()] = true;
    }
    assert_eq!(seen, [true; 4]);
}

#[test]
fn next_at_picks_among_the_pending() {
    let mut s = CardsUI::new();
    s.fetch(batch(4), 4);
    s.next_at(1);
    assert_eq!(s.active_card(), 1);
    s.grade();
    assert_eq!(s.pending_cards(), vec![0, 2, 3]);
    s.next_at(1);
    assert_eq!(s.active_card(), 2);
    s.update_and_next_at(1);
    assert_eq!(s.active_card(), 3);
    assert_eq!(s.pending_cards(), vec![0, 3]);
    s.update_and_next_at(0);
    assert_eq!(s.active_card(), 0);
    assert!(!s.is_done());
    s.update_and_next_at(0);
    assert!(s.is_done());
    assert_eq!(s.active_card(), 0);
    assert_eq!(s.pending_cards(), Vec::<usize>::new());
}

#[test]
fn grade_is_the_number_of_hints_left() {
    let mut s = CardsUI::new();
    s.fetch(batch(2), 2);
    s.next_at(0);
    s.grade();
    // grade 4: first success, difficulty up by 0.10
    assert_eq!(*s.get_cards()[0].get_stats(), Stats { interval: 1, repetitions: 1, difficulty: 140 });
    assert_eq!(s.hints_left(0), Some(5));
    s.next_at(0);
    assert_eq!(s.active_card(), 1);
    s.reveal_answer();
    s.repeat();
    s.repeat();
    assert_eq!(s.hints_left(1), Some(1));
    s.grade();
    // grade 1: a lapse
    assert_eq!(*s.get_cards()[1].get_stats(), Stats { interval: 1, repetitions: 0, difficulty: 130 });
    assert_eq!(s.hints_left(1), Some(2));
    assert_eq!(s.is_graded(1), Some(true));
}

#[test]
fn reveal_and_repeat_show_the_answer() {
    let mut s = CardsUI::new();
    s.fetch(batch(2), 2);
    s.next_at(1);
    assert_eq!(s.show(), Some("question 2"));
    assert_eq!(s.show_content(), None);
    s.reveal_answer();
    assert!(s.is_reveal());
    assert!(!s.is_repeat());
    assert_eq!(s.hints_left(1), Some(3));
    assert_eq!(s.show(), Some("answer 2, "));
    assert_eq!(s.show_content(), Some(20));
    s.repeat();
    assert!(!s.is_reveal());
    assert!(s.is_repeat());
    assert_eq!(s.hints_left(1), Some(2));
    assert_eq!(s.show(), Some("answer 2, "));
    assert_eq!(s.show_content(), Some(20));
    s.unset_repeat();
    assert!(!s.is_repeat());
    assert_eq!(s.hints_left(1), Some(2));
    assert_eq!(s.show(), Some("question 2"));
    assert_eq!(s.hints_left(0), Some(4));
    s.reveal_answer();
    s.next_at(0);
    assert!(!s.is_reveal());
    assert!(!s.is_repeat());
    assert_eq!(s.active_card(), 0);
}

#[test]
fn hints_stay_at_the_bounds() {
    let mut s = CardsUI::new();
    s.fetch(batch(1), 1);
    for _ in 0..200 {
        s.reveal_answer();
    }
    assert_eq!(s.hints_left(0), Some(i8::MIN));
    let mut s = CardsUI::new();
    s.fetch(batch(1), 1);
    for _ in 0..200 {
        s.grade();
    }
    assert_eq!(s.hints_left(0), Some(i8::MAX));
}

#[test]
fn reset_only_when_done() {
    let mut s = CardsUI::new();
    s.fetch(batch(2), 2);
    s.next_at(0);
    s.reveal_answer();
    s.reset();
    assert_eq!(s.len(), 2);
    assert!(s.is_reveal());
    assert_eq!(s.hints_left(0), Some(3));
    s.update_and_next_at(0);
    s.update_and_next_at(0);
    assert!(s.is_done());
    assert_eq!(s.len(), 2);
    s.reset();
    assert!(!s.is_done());
    assert_eq!(s.len(), 0);
    assert_eq!(s.active_card(), 0);
    assert!(!s.is_reveal());
    assert!(!s.is_repeat());
    assert_eq!(s.is_graded(0), None);
}

#[test]
fn session_without_cards_is_done_at_once() {
    let mut rng = rand::thread_rng();
    let mut s = CardsUI::new();
    s.repeat();
    s.reveal_answer();
    s.update_and_next(&mut rng);
    assert!(s.is_done());
    assert_eq!(s.show(), None);
    assert_eq!(s.show_content(), None);
}

#[test]
fn save_sets_the_next_day_of_each_card() {
    let mut s = CardsUI::new();
    s.fetch(batch(3), 3);
    s.next_at(0);
    s.update_and_next_at(0);
    s.reveal_answer();
    s.reveal_answer();
    s.reveal_answer();
    s.update_and_next_at(0);
    assert_eq!(s.active_card(), 2);
    s.save_to_database(738_000);
    assert_eq!(s.get_cards()[0].get_scheduled(), 738_001);
    assert_eq!(s.get_cards()[1].get_scheduled(), 738_001);
    assert_eq!(s.get_cards()[2].get_scheduled(), 738_000);
    assert_eq!(s.get_cards()[1].get_stats().repetitions, 0);
    assert_eq!(s.get_cards()[0].get_created(), 100);
    assert_eq!(s.len(), 3);
    assert_eq!(s.active_card(), 2);
}
