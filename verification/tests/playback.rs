use dialogue::ASTNode;
use dialogue::Action;
use dialogue::advance;
use dialogue::convert;
use dialogue::play;
use dialogue::try_advance;

#[test]
fn converts_one_line_into_our_magic_json() {
    let result = convert(String::from("Kay: Hello"));

    let line = ASTNode::Line {
        name: String::from("Kay"),
        message: String::from("Hello"),
    };
    let lines = vec![line];
    let node = ASTNode::Dialogue(lines);

    assert_eq!(result, node);
}

#[test]
fn plays_simple_game() {
    let line_1 = ASTNode::Line {
        name: String::from("Kay"),
        message: String::from("Hello"),
    };
    let line_2 = ASTNode::Line {
        name: String::from("Alex"),
        message: String::from("Hi"),
    };
    let lines = vec![line_1, line_2];
    let node = ASTNode::Dialogue(lines);

    let next_step_1 = advance(node);
    match next_step_1 {
        (Action::Print(string), dialogue_2) => {
            assert_eq!("Kay says Hello", string);
            let next_step_2 = advance(dialogue_2);
            match next_step_2 {
                (Action::Print(string), _) => assert_eq!("Alex says Hi", string),
                (_, _) => (),
            }
        }
        (_, _) => (),
    }
}

#[test]
fn plays_nested_game() {
    let line_1 = ASTNode::Line {
        name: String::from("Kay"),
        message: String::from("Hello"),
    };
    let line_2 = ASTNode::Line {
        name: String::from("Alex"),
        message: String::from("Hi"),
    };
    let lines = vec![line_1, line_2];
    let node = ASTNode::Dialogue(vec![ASTNode::Dialogue(lines)]);

    let next_step_1 = advance(node);
    match next_step_1 {
        (Action::Print(string), dialogue_2) => {
            assert_eq!("Kay says Hello", string);
            let next_step_2 = advance(dialogue_2);
            match next_step_2 {
                (Action::Print(string), _) => assert_eq!("Alex says Hi", string),
                (_, _) => panic!("Can't do this!"),
            }
        }
        (_, _) => panic!("Can't do this!"),
    }
}

#[test]
fn parses_two_lines_in_order() {
    let result = convert(String::from("Kay: Hello\nAlex: Hi"));

    let expected = ASTNode::Dialogue(vec![
        ASTNode::Line {
            name: String::from("Kay"),
            message: String::from("Hello"),
        },
        ASTNode::Line {
            name: String::from("Alex"),
            message: String::from("Hi"),
        },
    ]);
    assert_eq!(result, expected);
}

#[test]
fn plays_flat_program_to_completion() {
    let node = convert(String::from("Kay: Hello\nAlex: Hi"));
    let out = play(node);
    assert_eq!(
        out,
        vec![String::from("Kay says Hello"), String::from("Alex says Hi")]
    );
}

#[test]
fn nesting_does_not_change_the_output() {
    let lines = vec![
        ASTNode::Line {
            name: String::from("Kay"),
            message: String::from("Hello"),
        },
        ASTNode::Line {
            name: String::from("Alex"),
            message: String::from("Hi"),
        },
    ];
    let node = ASTNode::Dialogue(vec![ASTNode::Dialogue(lines)]);
    let out = play(node);
    assert_eq!(
        out,
        vec![String::from("Kay says Hello"), String::from("Alex says Hi")]
    );
}

#[test]
fn noop_children_are_skipped_silently() {
    let node = ASTNode::Dialogue(vec![
        ASTNode::Noop,
        ASTNode::Line {
            name: String::from("A"),
            message: String::from("x"),
        },
    ]);
    let out = play(node);
    assert_eq!(out, vec![String::from("A says x")]);
}

#[test]
fn advancing_the_terminal_node_signals_failure() {
    assert!(try_advance(ASTNode::Noop).is_none());
    let live = ASTNode::Line {
        name: String::from("A"),
        message: String::from("x"),
    };
    assert!(try_advance(live).is_some());
}

#[test]
fn empty_input_parses_to_an_empty_dialogue() {
    let result = convert(String::from(""));
    assert_eq!(result, ASTNode::Dialogue(vec![]));
    assert_eq!(play(convert(String::from(""))), Vec::<String>::new());
}

#[test]
fn line_without_colon_becomes_the_speaker() {
    let result = convert(String::from("hello"));
    let expected = ASTNode::Dialogue(vec![ASTNode::Line {
        name: String::from("hello"),
        message: String::from(""),
    }]);
    assert_eq!(result, expected);
}

#[test]
fn message_is_trimmed_but_speaker_is_verbatim() {
    let result = convert(String::from("  Kay :   Hello   "));
    let expected = ASTNode::Dialogue(vec![ASTNode::Line {
        name: String::from("  Kay "),
        message: String::from("Hello"),
    }]);
    assert_eq!(result, expected);
}

#[test]
fn trailing_newline_makes_an_empty_last_line() {
    let result = convert(String::from("Kay: Hello\n"));
    let expected = ASTNode::Dialogue(vec![
        ASTNode::Line {
            name: String::from("Kay"),
            message: String::from("Hello"),
        },
        ASTNode::Line {
            name: String::from(""),
            message: String::from(""),
        },
    ]);
    assert_eq!(result, expected);
}

#[test]
fn empty_dialogue_degrades_to_the_terminal_node() {
    let step = advance(ASTNode::Dialogue(vec![]));
    assert!(matches!(step, (Action::Noop, ASTNode::Noop)));
}

#[test]
fn a_line_is_consumed_in_one_step() {
    let node = ASTNode::Line {
        name: String::from("Kay"),
        message: String::from("Hello"),
    };
    let (action, rest) = advance(node);
    match action {
        Action::Print(string) => assert_eq!("Kay says Hello", string),
        Action::Noop => panic!("a line must emit its text"),
    }
    assert_eq!(rest, ASTNode::Noop);
}

#[test]
fn deeply_nested_empty_dialogues_terminate() {
    let node = ASTNode::Dialogue(vec![ASTNode::Dialogue(vec![ASTNode::Dialogue(vec![])])]);
    assert_eq!(play(node), Vec::<String>::new());
}

#[test]
fn parsed_two_line_script_finishes_within_three_steps() {
    let mut node = convert(String::from("Kay: Hello\nAlex: Hi"));
    let mut steps: usize = 0;
    while !node.is_noop() {
        let (_, rest) = advance(node);
        node = rest;
        steps += 1;
        assert!(steps <= 3);
    }
    assert_eq!(steps, 3);
    assert_eq!(node, ASTNode::Noop);
}

#[test]
fn unicode_passes_through_unchanged() {
    let result = convert(String::from("名前: こんにちは"));
    let expected = ASTNode::Dialogue(vec![ASTNode::Line {
        name: String::from("名前"),
        message: String::from("こんにちは"),
    }]);
    assert_eq!(result, expected);
}
