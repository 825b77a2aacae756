use krabby::line_edit::{LineEditError, LineEditState};

#[test]
fn basic_insert() -> Result<(), LineEditError> {
    let buffer = [0u8; 256];
    let mut state = LineEditState::from_buffer(buffer);
    state.insert_many("Hello world".chars());
    state.insert('!');
    assert_eq!(state.as_str()?, "Hello world!");
    Ok(())
}

#[test]
fn shifting() -> Result<(), LineEditError> {
    let buffer = [0u8; 256];
    let mut state = LineEditState::from_buffer(buffer);
    state.insert_many("Hi!".chars());
    assert_eq!(state.shift_left(1)?, 1);
    assert_eq!(state.as_str()?, "Hi!");
    state.insert_many(" there".chars());
    assert_eq!(state.as_str()?, "Hi there!");
    assert_eq!(state.shift_right(1)?, 1);
    assert_eq!(state.delete_prev()?.unwrap(), '!');
    assert_eq!(state.as_str()?, "Hi there");
    assert_eq!(state.shift_left(1)?, 1);
    assert_eq!(state.delete_prev()?.unwrap(), 'r');
    assert_eq!(state.as_str()?, "Hi thee");
    Ok(())
}

#[test]
fn basic_delete() -> Result<(), LineEditError> {
    let buffer = [0u8; 256];
    let mut state = LineEditState::from_buffer(buffer);
    state.insert_many("Hi".chars());
    assert_eq!(state.as_str()?, "Hi");
    assert_eq!(state.delete_prev()?.unwrap(), 'i');
    assert_eq!(state.as_str()?, "H");
    assert_eq!(state.delete_prev()?.unwrap(), 'H');
    assert_eq!(state.as_str()?, "");
    // Now deletion should fail
    assert!(state.delete_prev()?.is_none());
    Ok(())
}

#[test]
fn check_oom_and_clear() -> Result<(), LineEditError> {
    let buffer = [0u8; 4];
    let mut state = LineEditState::from_buffer(buffer);
    assert_eq!(state.insert_many("Hello world".chars()), 4);
    assert!(!state.insert('!'));
    assert_eq!(state.as_str()?, "Hell");
    state.clear();
    assert_eq!(state.insert_many("123".chars()), 3);
    assert!(state.insert('4'));
    assert!(!state.insert('5'));
    assert_eq!(state.as_str()?, "1234");
    Ok(())
}

#[test]
fn allocate_memory() -> Result<(), LineEditError> {
    let buffer = vec![0u8; 2];
    let mut state = LineEditState::from_buffer(buffer);
    state.insert_many("Hello\u{1F308}world!".chars());
    assert_eq!(state.as_str()?, "Hello\u{1F308}world!");
    assert_eq!(state.len(), 15);
    Ok(())
}

#[test]
fn multibyte_shift_and_delete() -> Result<(), LineEditError> {
    let buffer = [0u8; 32];
    let mut state = LineEditState::from_buffer(buffer);
    state.insert_many("a\u{e9}\u{1F98A}b".chars());
    assert_eq!(state.len(), 1 + 2 + 4 + 1);
    assert_eq!(state.shift_left(2)?, 2);
    assert_eq!(state.head()?, "a\u{e9}");
    assert_eq!(state.tail()?, "\u{1F98A}b");
    assert_eq!(state.delete_current()?, Some('\u{1F98A}'));
    assert_eq!(state.as_str()?, "a\u{e9}b");
    assert_eq!(state.delete_prev()?, Some('\u{e9}'));
    assert_eq!(state.as_str()?, "ab");
    assert_eq!(state.shift_right(10)?, 1);
    assert_eq!(state.delete_current()?, None);
    assert_eq!(state.shift_left(10)?, 2);
    assert_eq!(state.delete_prev()?, None);
    Ok(())
}

#[test]
fn move_and_kill_to_end() -> Result<(), LineEditError> {
    let buffer = [0u8; 16];
    let mut state = LineEditState::from_buffer(buffer);
    assert!(state.is_empty());
    state.insert_many("Hello".chars());
    state.move_to_start();
    assert_eq!(state.head()?, "");
    state.move_to_end();
    assert_eq!(state.tail()?, "");
    assert_eq!(state.shift_left(2)?, 2);
    assert_eq!(state.kill_to_end()?, "lo");
    assert_eq!(state.as_str()?, "Hel");
    assert!(!state.is_empty());
    Ok(())
}

#[test]
fn move_past_next_word() -> Result<(), LineEditError> {
    let buffer = [0u8; 256];
    let mut state = LineEditState::from_buffer(buffer);
    state.insert_many("The quick    brown\tfax    ".chars());
    state.move_to_start();
    assert_eq!(state.head()?, "");
    state.move_past_end_of_word()?;
    assert_eq!(state.head()?, "The");
    state.move_past_end_of_word()?;
    assert_eq!(state.head()?, "The quick");
    state.move_past_end_of_word()?;
    assert_eq!(state.head()?, "The quick    brown");
    state.move_past_end_of_word()?;
    assert_eq!(state.head()?, "The quick    brown\tfax");
    state.move_past_end_of_word()?;
    assert_eq!(state.head()?, "The quick    brown\tfax    ");
    state.move_past_end_of_word()?;
    assert_eq!(state.head()?, "The quick    brown\tfax    ");
    state.move_to_prev_start_of_word()?;
    assert_eq!(state.head()?, "The quick    brown\t");
    state.move_to_prev_start_of_word()?;
    assert_eq!(state.head()?, "The quick    ");
    state.move_to_prev_start_of_word()?;
    assert_eq!(state.head()?, "The ");
    state.move_to_prev_start_of_word()?;
    assert_eq!(state.head()?, "");
    state.move_to_prev_start_of_word()?;
    assert_eq!(state.head()?, "");
    Ok(())
}

#[test]
fn kill_to_end() -> Result<(), LineEditError> {
    let buffer = [0u8; 256];
    let mut state = LineEditState::from_buffer(buffer);
    state.insert_many("Hello World!".chars());

    assert_eq!(state.kill_to_end()?, "");
    assert_eq!(state.as_str()?, "Hello World!");

    state.move_to_prev_start_of_word()?;
    assert_eq!(state.kill_to_end()?, "World!");
    assert_eq!(state.as_str()?, "Hello ");

    state.move_to_prev_start_of_word()?;
    assert_eq!(state.kill_to_end()?, "Hello ");
    assert_eq!(state.as_str()?, "");

    assert_eq!(state.kill_to_end()?, "");
    assert_eq!(state.as_str()?, "");

    Ok(())
}

#[test]
fn words_with_unicode_spaces() -> Result<(), LineEditError> {
    let buffer = [0u8; 64];
    let mut state = LineEditState::from_buffer(buffer);
    state.insert_many("ab\u{3000}\u{1F98A}d  e".chars());
    state.move_to_start();
    state.move_past_end_of_word()?;
    assert_eq!(state.head()?, "ab");
    state.move_past_end_of_word()?;
    assert_eq!(state.head()?, "ab\u{3000}\u{1F98A}d");
    state.move_to_prev_start_of_word()?;
    assert_eq!(state.head()?, "ab\u{3000}");
    Ok(())
}

#[test]
fn basic_killing() -> Result<(), LineEditError> {
    let buffer = [0u8; 256];
    let mut state = LineEditState::from_buffer(buffer);
    state.insert_many("The quick \u{1F98A} jamped ".chars());
    assert_eq!(state.kill_prev_word()?, "jamped ");
    assert_eq!(state.kill_prev_word()?, "\u{1F98A} ");
    assert_eq!(state.kill_prev_word()?, "quick ");
    assert_eq!(state.kill_prev_word()?, "The ");
    assert_eq!(state.kill_prev_word()?, "");
    Ok(())
}

#[test]
fn transpose_chars() -> Result<(), LineEditError> {
    let buffer = [0u8; 256];
    let mut state = LineEditState::from_buffer(buffer);
    state.insert_many("\u{1F30D}Hello".chars());
    state.move_to_start();

    // Should do nothing when cursor at beginning
    state.transpose_chars()?;
    assert_eq!(state.as_str()?, "\u{1F30D}Hello");

    state.shift_right(1)?;

    state.transpose_chars()?;
    assert_eq!(state.as_str()?, "H\u{1F30D}ello");
    state.transpose_chars()?;
    assert_eq!(state.as_str()?, "He\u{1F30D}llo");
    state.transpose_chars()?;
    assert_eq!(state.as_str()?, "Hel\u{1F30D}lo");
    state.transpose_chars()?;
    assert_eq!(state.as_str()?, "Hell\u{1F30D}o");
    state.transpose_chars()?;
    assert_eq!(state.as_str()?, "Hello\u{1F30D}");

    // Cursor at end - snail moves back and forth
    state.transpose_chars()?;
    assert_eq!(state.as_str()?, "Hell\u{1F30D}o");
    state.transpose_chars()?;
    assert_eq!(state.as_str()?, "Hello\u{1F30D}");

    Ok(())
}

#[test]
fn kill_prev_word_keeps_tail() -> Result<(), LineEditError> {
    let buffer = [0u8; 64];
    let mut state = LineEditState::from_buffer(buffer);
    state.insert_many("one two three".chars());
    assert_eq!(state.shift_left(6)?, 6);
    assert_eq!(state.head()?, "one two");
    assert_eq!(state.kill_prev_word()?, "two");
    assert_eq!(state.as_str()?, "one  three");
    assert_eq!(state.tail()?, " three");
    assert_eq!(state.kill_prev_word()?, "one ");
    assert_eq!(state.as_str()?, " three");
    Ok(())
}

struct XorShift(u64);

impl XorShift {
    fn next(&mut self) -> u64 {
        let mut x = self.0;
        x ^= x << 13;
        x ^= x >> 7;
        x ^= x << 17;
        self.0 = x;
        x
    }

    fn flip(&mut self) -> bool {
        self.next() & 1 == 1
    }

    fn char(&mut self) -> char {
        loop {
            if let Some(c) = char::from_u32((self.next() % 0x11_0000) as u32) {
                return c;
            }
        }
    }
}

#[test]
fn fuzz() -> Result<(), LineEditError> {
    let mut rng = XorShift(0x2545_f491_4f6c_dd1d);
    let mut buffer: Vec<u8> = vec![0; (rng.next() % 256) as usize + 1];
    // Shouldn't matter if it's zeroed out or not
    if rng.flip() {
        for b in buffer.iter_mut() {
            *b = rng.next() as u8;
        }
    }

    let mut state = LineEditState::from_buffer(buffer);

    for _ in 0..10000 {
        if rng.flip() {
            state.insert(rng.char());
        }
        if rng.flip() {
            state.shift_left(rng.next() as usize)?;
        }
        if rng.flip() {
            let gen = rng.next() as usize;
            state.shift_right(gen)?;
        }
        if rng.flip() {
            state.delete_prev()?;
        }
        if rng.flip() {
            state.delete_current()?;
        }
        if rng.flip() {
            // Should always be valid utf-8
            state.as_str()?;
            state.tail()?;
            state.head()?;
        }
    }
    Ok(())
}
