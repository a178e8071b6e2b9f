use matrixise::message::BLANK;
use matrixise::{ColorChar, Draw, Message, MessageQueue, ScriptedRolls, Streak, ThreadRolls};

fn cell(c: char) -> ColorChar {
    ColorChar::new(c as u32, 4)
}

fn blank() -> ColorChar {
    ColorChar::new(BLANK, 0)
}

fn msg(s: &str, id: &str) -> Message {
    Message::new_simple(s, 4, id)
}

fn shown(s: &Streak) -> String {
    s.cells()
        .iter()
        .map(|c| if *c == blank() { '.' } else { c.data as u8 as char })
        .collect()
}

fn scripted(queue: &mut MessageQueue, script: Vec<i128>, h: i32, p: i32) -> Streak {
    let mut rolls = ScriptedRolls::new(script);
    Streak::new_with_source(queue, &mut rolls, 0, 4, h, p)
}

#[test]
fn recycled_single_cell_fills_the_streak() {
    let mut q = MessageQueue::new(1, true);
    q.push(Message::new_simple("X", 4, "A"));
    let s = Streak::new_with_queue(&mut q, 2, 5, 3, 0);
    assert_eq!(s.cells(), &vec![cell('X'), cell('X'), cell('X')]);
    assert_eq!(s.head_row(), 0);
    assert_eq!(s.lane(), 2);
    assert_eq!(s.length(), 5);
    assert_eq!(q.len(), 1);
    assert_eq!(q.front().unwrap().id, "A");
}

#[test]
fn empty_queue_gives_a_blank_streak() {
    let mut q = MessageQueue::new(0, false);
    let s = Streak::new_with_queue(&mut q, 0, 3, 6, 20);
    assert_eq!(s.cells(), &vec![blank(); 6]);
    assert_eq!(s.cells().len(), 6);
    assert_eq!(q.len(), 0);
    assert!(q.pop().is_none());
}

#[test]
fn empty_recycling_queue_gives_a_blank_streak() {
    let mut q = MessageQueue::new(0, true);
    let s = Streak::new_with_queue(&mut q, 0, 3, 4, 0);
    assert_eq!(shown(&s), "....");
    assert_eq!(q.len(), 0);
}

#[test]
fn buffer_always_has_one_cell_per_row() {
    for &p in &[0, 1, 20] {
        for &closed in &[false, true] {
            for h in 0..12 {
                for round in 0..25 {
                    let mut queues: Vec<MessageQueue> = Vec::new();
                    queues.push(MessageQueue::new(0, closed));
                    let mut one_short = MessageQueue::new(0, closed);
                    one_short.push(msg("ab", "s"));
                    queues.push(one_short);
                    let mut one_long = MessageQueue::new(0, closed);
                    one_long.push(msg("abcdefghijklmnopqrstuvwxyz", "l"));
                    queues.push(one_long);
                    let mut many = MessageQueue::new(0, closed);
                    for i in 0..30 {
                        many.push(msg(&format!("m{}", i), &format!("{}", i)));
                    }
                    queues.push(many);
                    let mut with_empty = MessageQueue::new(0, closed);
                    with_empty.push(msg("", "e1"));
                    with_empty.push(msg("", "e2"));
                    with_empty.push(msg("x", "x"));
                    queues.push(with_empty);
                    let mut only_empty = MessageQueue::new(0, closed);
                    only_empty.push(msg("", "e1"));
                    only_empty.push(msg("", "e2"));
                    queues.push(only_empty);
                    for q in queues.iter_mut() {
                        let s = Streak::new_with_queue(q, round, round, h, p);
                        assert_eq!(s.cells().len(), h as usize);
                        assert_eq!(s.head_row(), 0);
                        assert_eq!(s.length(), round);
                        assert_eq!(s.lane(), round);
                    }
                }
            }
        }
    }
}

#[test]
fn opening_roll_below_the_length_cuts_the_front() {
    // roll 2 of a message of 5 cells: start = 2 - 5 + 1 = -2, two cells cut.
    let mut q = MessageQueue::new(0, false);
    q.push(msg("HELLO", "h"));
    let s = scripted(&mut q, vec![2], 8, 3);
    assert_eq!(shown(&s), "LLO.....");
    assert_eq!(q.len(), 0);
}

#[test]
fn opening_roll_zero_shows_the_last_cell_only() {
    let mut q = MessageQueue::new(0, false);
    q.push(msg("HELLO", "h"));
    let s = scripted(&mut q, vec![0], 8, 3);
    assert_eq!(shown(&s), "O.......");
}

#[test]
fn opening_roll_of_the_length_less_one_shows_the_whole_message() {
    let mut q = MessageQueue::new(0, false);
    q.push(msg("HELLO", "h"));
    let s = scripted(&mut q, vec![4], 8, 3);
    assert_eq!(shown(&s), "HELLO...");
}

#[test]
fn opening_roll_past_the_length_pads_the_top() {
    // roll 7 of a message of 5 cells: start = 7 - 5 + 1 = 3 blanks.
    let mut q = MessageQueue::new(0, false);
    q.push(msg("HELLO", "h"));
    let s = scripted(&mut q, vec![7], 10, 3);
    assert_eq!(shown(&s), "...HELLO..");
}

#[test]
fn padding_never_exceeds_the_screen() {
    let mut q = MessageQueue::new(0, false);
    q.push(msg("X", "x"));
    let s = scripted(&mut q, vec![15], 3, 20);
    assert_eq!(shown(&s), "...");
    assert_eq!(s.cells().len(), 3);
}

#[test]
fn first_message_longer_than_the_screen_is_cut() {
    let mut q = MessageQueue::new(0, false);
    q.push(msg("ABCDEFGHIJ", "long"));
    q.push(msg("next", "n"));
    let s = scripted(&mut q, vec![9], 4, 0);
    assert_eq!(shown(&s), "ABCD");
    assert_eq!(q.len(), 1);
}

#[test]
fn cut_first_message_fills_the_screen_with_what_is_left_of_it() {
    // roll 6 of 10 cells: 3 cells cut; what is left fills the 5 rows, and
    // the next message stays queued.
    let mut q = MessageQueue::new(0, false);
    q.push(msg("ABCDEFGHIJ", "long"));
    q.push(msg("xyz", "n"));
    let s = scripted(&mut q, vec![6, 0], 5, 0);
    assert_eq!(shown(&s), "DEFGH");
    assert_eq!(q.len(), 1);
    assert_eq!(q.front().unwrap().id, "n");
}

#[test]
fn long_first_message_always_shows_a_cell() {
    // 4 cells on 3 rows: whatever the roll, cells of the message show
    for (roll, text) in vec![(0, "D.."), (1, "CD."), (2, "BCD"), (3, "ABC")] {
        let mut q = MessageQueue::new(0, false);
        q.push(msg("ABCD", "m"));
        let s = scripted(&mut q, vec![roll], 3, 0);
        assert_eq!(shown(&s), text);
        assert_eq!(q.len(), 0);
    }
}

#[test]
fn first_message_shows_for_every_roll() {
    for &p in &[0, 1, 5, 9] {
        for len in 1..14usize {
            for roll in 0..(len as i128 + p as i128) {
                let text: String = (0..len).map(|i| (b'a' + i as u8) as char).collect();
                let mut q = MessageQueue::new(0, false);
                q.push(msg(&text, "m"));
                let s = scripted(&mut q, vec![roll], 10, p);
                let cells = shown(&s);
                let pad = cells.chars().take_while(|c| *c == '.').count();
                assert!(pad <= p as usize, "{} {}", cells, roll);
                let c = cells.chars().nth(pad).unwrap();
                assert!(text.contains(c), "{} {}", cells, roll);
                assert!(pad == 0 || c == 'a', "{} {}", cells, roll);
            }
        }
    }
}

#[test]
fn gaps_stand_between_messages() {
    let mut q = MessageQueue::new(0, false);
    q.push(msg("AB", "1"));
    q.push(msg("CD", "2"));
    q.push(msg("EF", "3"));
    // opening roll 1 shows "AB" whole; gaps of 2 and 1
    let s = scripted(&mut q, vec![1, 2, 1, 0], 12, 3);
    assert_eq!(shown(&s), "AB..CD.EF...");
    assert_eq!(q.len(), 0);
}

#[test]
fn gap_that_reaches_the_bottom_ends_the_streak() {
    let mut q = MessageQueue::new(0, false);
    q.push(msg("AB", "1"));
    q.push(msg("CD", "2"));
    // after "AB" a gap of 2 would fill a screen of 4 rows: pad and stop,
    // the second message stays queued.
    let s = scripted(&mut q, vec![1, 2], 4, 3);
    assert_eq!(shown(&s), "AB..");
    assert_eq!(q.len(), 1);
    assert_eq!(q.front().unwrap().id, "2");
}

#[test]
fn message_that_overflows_is_cut_at_the_bottom() {
    let mut q = MessageQueue::new(0, false);
    q.push(msg("AB", "1"));
    q.push(msg("CDEFGH", "2"));
    q.push(msg("IJ", "3"));
    let s = scripted(&mut q, vec![1, 1], 6, 3);
    assert_eq!(shown(&s), "AB.CDE");
    assert_eq!(q.len(), 1);
    assert_eq!(q.front().unwrap().id, "3");
}

#[test]
fn message_that_fits_exactly_ends_the_streak() {
    let mut q = MessageQueue::new(0, false);
    q.push(msg("AB", "1"));
    q.push(msg("CD", "2"));
    q.push(msg("EF", "3"));
    let s = scripted(&mut q, vec![1, 0], 4, 3);
    assert_eq!(shown(&s), "ABCD");
    assert_eq!(q.len(), 1);
}

#[test]
fn no_padding_means_no_blank_between_messages() {
    let mut q = MessageQueue::new(0, false);
    q.push(msg("AB", "1"));
    q.push(msg("CD", "2"));
    q.push(msg("EF", "3"));
    let mut rolls = ThreadRolls::new();
    // with no padding the opening roll lies below the length: 0 or 1
    let s = Streak::new_with_source(&mut q, &mut rolls, 0, 1, 9, 0);
    let text = shown(&s);
    assert!(text == "ABCDEF..." || text == "BCDEF....", "{}", text);
}

#[test]
fn padding_of_one_allows_no_gap() {
    let mut q = MessageQueue::new(0, false);
    q.push(msg("AB", "1"));
    q.push(msg("CD", "2"));
    // a script that asks for gaps of 5 gets 0: a gap lies below max_padding
    let s = scripted(&mut q, vec![1, 5, 5, 5], 6, 1);
    assert_eq!(shown(&s), "ABCD..");
}

#[test]
fn queue_running_dry_pads_the_rest() {
    let mut q = MessageQueue::new(0, false);
    q.push(msg("AB", "1"));
    let s = scripted(&mut q, vec![1, 1], 6, 3);
    assert_eq!(shown(&s), "AB....");
    assert_eq!(q.len(), 0);
}

#[test]
fn recycling_queue_repeats_its_messages() {
    let mut q = MessageQueue::new(0, true);
    q.push(msg("AB", "1"));
    q.push(msg("C", "2"));
    let s = scripted(&mut q, vec![1, 1, 0, 1, 0], 10, 3);
    assert_eq!(shown(&s), "AB.CAB.CAB");
    assert_eq!(q.len(), 2);
}

#[test]
fn recycling_queue_without_a_cell_is_padded_at_once() {
    let mut q = MessageQueue::new(0, true);
    q.push(msg("", "e1"));
    q.push(msg("", "e2"));
    let s = scripted(&mut q, vec![0, 0, 0, 0], 5, 0);
    assert_eq!(shown(&s), ".....");
    assert_eq!(q.len(), 2);
    // one message was popped, and queued again behind the other
    assert_eq!(q.front().unwrap().id, "e2");
}

#[test]
fn recycling_queue_skips_empty_messages() {
    let mut q = MessageQueue::new(0, true);
    q.push(msg("", "e1"));
    q.push(msg("", "e2"));
    q.push(msg("Z", "z"));
    let s = scripted(&mut q, Vec::new(), 3, 0);
    assert_eq!(shown(&s), "ZZZ");
}

#[test]
fn empty_first_message_without_padding_adds_nothing() {
    let mut q = MessageQueue::new(0, false);
    q.push(msg("", "e"));
    q.push(msg("AB", "1"));
    let s = scripted(&mut q, Vec::new(), 4, 0);
    assert_eq!(shown(&s), "AB..");
}

#[test]
fn empty_first_message_with_padding_pads() {
    let mut q = MessageQueue::new(0, false);
    q.push(msg("", "e"));
    q.push(msg("AB", "1"));
    // roll 1 of an empty message: start = 1 - 0 + 1 = 2 blanks, then no gap
    let s = scripted(&mut q, vec![1, 0], 6, 3);
    assert_eq!(shown(&s), "..AB..");
}

#[test]
fn screen_without_rows_gives_no_cells() {
    let mut q = MessageQueue::new(0, false);
    q.push(msg("AB", "1"));
    let s = scripted(&mut q, vec![1], 0, 3);
    assert_eq!(s.cells().len(), 0);
    assert_eq!(q.len(), 0);
}

#[test]
fn finished_turns_true_at_length_plus_height() {
    for length in 0..6 {
        for height in 0..6 {
            let mut q = MessageQueue::new(0, false);
            let mut s = Streak::new_with_queue(&mut q, 0, length, height, 0);
            for head in 0..(length + height + 5) {
                assert_eq!(s.head_row(), head);
                assert_eq!(s.finished(height), head >= length + height);
                assert_eq!(s.top_space(), head - length + 1);
                s.advance();
            }
        }
    }
}

#[test]
fn advance_moves_the_head_one_row() {
    let mut q = MessageQueue::new(0, false);
    let mut s = Streak::new_with_queue(&mut q, 3, 2, 5, 0);
    assert_eq!(s.head_row(), 0);
    s.advance();
    assert_eq!(s.head_row(), 1);
    s.advance();
    assert_eq!(s.head_row(), 2);
    assert_eq!(s.lane(), 3);
    assert_eq!(s.length(), 2);
    assert_eq!(s.cells().len(), 5);
}

#[test]
fn top_space_counts_rows_above_the_tail() {
    let mut q = MessageQueue::new(0, false);
    let mut s = Streak::new_with_queue(&mut q, 0, 3, 10, 0);
    assert_eq!(s.top_space(), -2);
    for _ in 0..9 {
        s.advance();
    }
    assert_eq!(s.top_space(), 7);
}

#[test]
fn render_draws_the_rows_of_the_window_on_the_screen() {
    let mut q = MessageQueue::new(0, false);
    q.push(msg("ABCDEF", "1"));
    let mut s = scripted(&mut q, vec![5], 6, 0);
    assert_eq!(shown(&s), "ABCDEF");
    // head on row 0: nothing above it
    assert_eq!(s.render(6), Vec::new());
    s.advance();
    assert_eq!(s.render(6), vec![Draw { row: 0, col: 0, cell: cell('A') }]);
    for _ in 0..4 {
        s.advance();
    }
    // head on row 5, length 4: rows 0..5 hold the window and the row it leaves
    assert_eq!(
        s.render(6),
        vec![
            Draw { row: 0, col: 0, cell: cell('A') },
            Draw { row: 1, col: 0, cell: cell('B') },
            Draw { row: 2, col: 0, cell: cell('C') },
            Draw { row: 3, col: 0, cell: cell('D') },
            Draw { row: 4, col: 0, cell: cell('E') },
        ]
    );
    for _ in 0..3 {
        s.advance();
    }
    // head on row 8: rows 3..8, of which 3, 4 and 5 are on the screen
    assert_eq!(
        s.render(6),
        vec![
            Draw { row: 3, col: 0, cell: cell('D') },
            Draw { row: 4, col: 0, cell: cell('E') },
            Draw { row: 5, col: 0, cell: cell('F') },
        ]
    );
    // a shorter screen shows fewer rows
    assert_eq!(s.render(4), vec![Draw { row: 3, col: 0, cell: cell('D') }]);
    assert_eq!(s.render(0), Vec::new());
}

#[test]
fn derender_wipes_the_row_above_the_window() {
    let mut q = MessageQueue::new(0, false);
    let mut s = Streak::new_with_queue(&mut q, 7, 2, 5, 0);
    assert_eq!(s.derender(99), Draw { row: -3, col: 7, cell: ColorChar::new(BLANK, 99) });
    for _ in 0..6 {
        s.advance();
    }
    assert_eq!(s.derender(5), Draw { row: 3, col: 7, cell: ColorChar::new(BLANK, 5) });
}

#[test]
fn streak_takes_any_length() {
    for &length in &[-7, -1, 0, 1, i32::MAX] {
        let mut q = MessageQueue::new(0, false);
        q.push(msg("AB", "1"));
        let s = scripted(&mut q, vec![1], 5, 0);
        assert_eq!(s.cells().len(), 5);
        let mut q = MessageQueue::new(0, false);
        q.push(msg("AB", "1"));
        let t = Streak::new_with_queue(&mut q, 9, length, 5, 0);
        assert_eq!(t.cells().len(), 5);
        assert_eq!(t.length(), length);
        assert_eq!(t.head_row(), 0);
        assert_eq!(t.lane(), 9);
    }
}

#[test]
fn a_streak_draws_its_rolls_and_no_other_number() {
    let mut rolls = ScriptedRolls::new(vec![1, 1, 2, 3, 0]);
    let mut q = MessageQueue::new(0, false);
    q.push(msg("AB", "1"));
    q.push(msg("CD", "2"));
    q.push(msg("EF", "3"));
    // opening roll 1, a gap of 1, then a gap of 2 that reaches the bottom
    let s = Streak::new_with_source(&mut q, &mut rolls, 0, 1, 6, 3);
    assert_eq!(shown(&s), "AB.CD.");
    assert_eq!(q.len(), 1);
    // the next streak begins with the fourth number of the script
    let mut q = MessageQueue::new(0, false);
    q.push(msg("XY", "x"));
    let t = Streak::new_with_source(&mut q, &mut rolls, 0, 1, 4, 3);
    assert_eq!(shown(&t), "..XY");
}

#[test]
fn no_padding_draws_the_opening_roll_alone() {
    let mut rolls = ScriptedRolls::new(vec![1, 0]);
    let mut q = MessageQueue::new(0, false);
    q.push(msg("AB", "1"));
    q.push(msg("CD", "2"));
    q.push(msg("EF", "3"));
    let s = Streak::new_with_source(&mut q, &mut rolls, 0, 1, 8, 0);
    assert_eq!(shown(&s), "ABCDEF..");
    // the second number of the script is still to come
    let mut q = MessageQueue::new(0, false);
    q.push(msg("XY", "x"));
    let t = Streak::new_with_source(&mut q, &mut rolls, 0, 1, 3, 0);
    assert_eq!(shown(&t), "Y..");
}
