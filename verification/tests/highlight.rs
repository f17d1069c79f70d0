use debug_console::highlight::{
    highlight_serial_prompt, prompt_parts, render, valid_prompt_dir, valid_prompt_user, PromptParts, Span,
};

fn shown(line: &[u8]) -> String {
    let mut out = Vec::new();
    highlight_serial_prompt(line, &mut out);
    String::from_utf8(out).unwrap()
}

#[test]
fn highlight_prompt_highlight_colors_user_dir_and_sigil() {
    let rendered = shown(b"root@myd-lt527:/# ip -c a\r\n");
    assert!(rendered.contains("\x1b[1;32mroot@myd-lt527\x1b[0m:"));
    assert!(rendered.contains("\x1b[1;34m/\x1b[0m"));
    assert!(rendered.contains("\x1b[1;37m# \x1b[0mip -c a"));
}

#[test]
fn highlight_prompt_highlight_handles_bracket_prompt() {
    let rendered = shown(b"[root@myd-lt527 ~]# pwd\r\n");
    assert!(rendered.contains("[\x1b[1;32mroot@myd-lt527\x1b[0m "));
    assert!(rendered.contains("\x1b[1;34m~\x1b[0m]"));
    assert!(rendered.contains("\x1b[1;37m# \x1b[0mpwd"));
}

#[test]
fn prompt_highlight_short_colon_prompt() {
    let rendered = shown(b"root@board-name:/# ls\r\n");
    assert!(rendered.contains("\x1b[1;32mroot@board-name\x1b[0m:"));
    assert!(rendered.contains("\x1b[1;34m/\x1b[0m"));
    assert!(rendered.contains("\x1b[1;37m# \x1b[0mls"));
}

#[test]
fn prompt_highlight_bracketed_paste_prefix() {
    let rendered = shown(b"\x1b[?2004hroot@board:/# ls\r\n");
    assert!(rendered.contains("\x1b[1;32mroot@board\x1b[0m:"));
    assert!(rendered.contains("\x1b[1;34m/\x1b[0m"));
    assert!(rendered.contains("\x1b[1;37m# \x1b[0mls"));
}

#[test]
fn highlight_prompt_highlight_does_not_color_non_prompt_lines() {
    let rendered = shown(b"[    0.000] Booting Linux\n");
    assert!(!rendered.contains("\x1b["));
}

#[test]
fn test_highlight_prompt() {
    let rendered = shown(b"root@board:/# ls\r\n");
    assert!(rendered.contains("\x1b[1;32mroot@board\x1b[0m"), "user should be green");
    assert!(rendered.contains("\x1b[1;34m/\x1b[0m"), "dir should be blue");
    assert!(rendered.contains("\x1b[1;37m# \x1b[0m"), "sigil should be white");
}

#[test]
fn the_parts_of_a_prompt_are_found() {
    assert_eq!(
        prompt_parts(b"root@b:/# ls\n", false),
        Some(PromptParts {
            prefix: None,
            user: Span { start: 0, end: 6 },
            separator: Some(Span { start: 6, end: 7 }),
            dir: Span { start: 7, end: 8 },
            suffix: None,
            sigil: Span { start: 8, end: 10 },
        })
    );
    assert_eq!(prompt_parts(b" root@b:/# ls\n", false), None);
    assert_eq!(prompt_parts(b"", false), None);
}

#[test]
fn users_and_directories_are_checked() {
    assert!(valid_prompt_user(b"root@board"));
    assert!(!valid_prompt_user(b""));
    assert!(!valid_prompt_user(b"/root"));
    assert!(!valid_prompt_user(b"@@"));
    assert!(valid_prompt_dir(b"/var/log"));
    assert!(!valid_prompt_dir(b""));
    assert!(!valid_prompt_dir(b" /x"));
    assert!(!valid_prompt_dir(b"a]b"));
}

#[test]
fn lines_without_a_prompt_stay() {
    assert_eq!(shown(b"one\ntwo\r\n\nthree"), "one\ntwo\r\n\nthree");
}

#[test]
fn lines_that_are_not_text_stay() {
    let mut out = Vec::new();
    render(b"root@b\xff:/# ls\n", false, &mut out);
    assert_eq!(out, b"root@b\xff:/# ls\n");
}

#[test]
fn colouring_only_adds_colours() {
    let lines: [&[u8]; 7] = [
        b"root@b:/# ls\n",
        b"u:/a # x$ ",
        b"a$ b:/x# ",
        b"[root@b ~]# pwd\n",
        b"one\ntwo@x:~$ ls\nthree",
        b"cat: /tmp# not a prompt\n",
        b"",
    ];
    for line in lines {
        for clean in [true, false] {
            let mut out = Vec::new();
            render(line, clean, &mut out);
            let mut text = String::from_utf8(out).unwrap();
            for code in ["\x1b[1;32m", "\x1b[1;34m", "\x1b[1;37m", "\x1b[0m"] {
                text = text.replace(code, "");
            }
            assert_eq!(text.as_bytes(), line);
        }
    }
    // A path that the sigil does not follow is none.
    assert_eq!(shown(b"u:/a # x$ "), "u:/a # x$ ");
    assert_eq!(
        shown(b"root@b:/# ls\n"),
        "\x1b[1;32mroot@b\x1b[0m:\x1b[1;34m/\x1b[0m\x1b[1;37m# \x1b[0mls\n"
    );
}

#[test]
fn lines_are_coloured_one_by_one() {
    let both = shown(b"root@b:/# ls\nroot@b:~# pwd\n");
    assert_eq!(both, shown(b"root@b:/# ls\n") + &shown(b"root@b:~# pwd\n"));
}
