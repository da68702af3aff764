use ryha::gemini::{Candidate, Content, GeminiClient, GeminiResponse, Part};
use ryha::ir::{Instruction, Operand};
use ryha::obfuscator::Obfuscator;
use ryha::security::SecurityAnalyzer;
use ryha::self_modifier::SelfModifier;
use ryha::voice::VoiceCommandParser;

#[test]
fn warns_about_each_store() {
    let instrs = vec![
        Instruction::Store(Operand::Register(4), Operand::Immediate(1)),
        Instruction::Load(Operand::Register(0), Operand::Immediate(1)),
        Instruction::Store(Operand::Label("buf".to_string()), Operand::Register(0)),
        Instruction::Store(Operand::Immediate(-3), Operand::Register(0)),
    ];
    let mut sec = SecurityAnalyzer::new();
    sec.analyze(&instrs);
    assert_eq!(
        sec.errors().to_vec(),
        vec![
            "potential buffer overflow at Register(4)".to_string(),
            "potential buffer overflow at Label(\"buf\")".to_string(),
            "potential buffer overflow at Immediate(-3)".to_string(),
        ]
    );
}

#[test]
fn no_warnings_without_stores() {
    let mut sec = SecurityAnalyzer::new();
    sec.analyze(&[Instruction::Ret(Operand::Register(0))]);
    assert!(sec.errors().is_empty());
}

#[test]
fn operand_debug_text_matches_debug_formatting() {
    for o in [Operand::Register(255), Operand::Immediate(i64::MIN), Operand::Label("a\\b".to_string())] {
        assert_eq!(o.debug_text(), format!("{:?}", o));
    }
}

#[test]
fn obfuscation_keeps_the_same_instructions() {
    let mut instrs: Vec<Instruction> = (0..20u8)
        .map(|r| Instruction::Load(Operand::Register(r), Operand::Immediate(r as i64)))
        .collect();
    let before = instrs.clone();
    let mut obf = Obfuscator::new();
    obf.obfuscate(&mut instrs);
    assert_eq!(obf.instructions().to_vec(), instrs);
    let mut a: Vec<String> = before.iter().map(|i| format!("{:?}", i)).collect();
    let mut b: Vec<String> = instrs.iter().map(|i| format!("{:?}", i)).collect();
    a.sort();
    b.sort();
    assert_eq!(a, b);
}

#[test]
fn voice_recognizes_build_only() {
    let p = VoiceCommandParser::new();
    assert_eq!(p.parse("build"), Some("build".to_string()));
    assert_eq!(p.parse("Build"), None);
    assert_eq!(p.parse("build "), None);
    assert_eq!(p.parse(""), None);
}

#[test]
fn gemini_request_and_endpoint() {
    let client = GeminiClient::new("KEY123".to_string());
    assert_eq!(
        client.endpoint(),
        "https://generativelanguage.googleapis.com/v1beta/models/gemini-pro:generateContent?key=KEY123"
    );
    let req = client.request_for("undefined variable: x");
    assert_eq!(req.contents.len(), 1);
    assert_eq!(req.contents[0].parts.len(), 1);
    assert_eq!(req.contents[0].parts[0].text, "Explain this compiler error: undefined variable: x");
}

#[test]
fn gemini_answer_is_first_part_of_first_candidate() {
    let resp = GeminiResponse {
        candidates: vec![
            Candidate {
                content: Content {
                    parts: vec![Part { text: "first".to_string() }, Part { text: "second".to_string() }],
                },
            },
            Candidate { content: Content { parts: vec![Part { text: "other".to_string() }] } },
        ],
    };
    assert_eq!(GeminiClient::answer_text(&resp), Some("first".to_string()));
    let empty = GeminiResponse { candidates: vec![] };
    assert_eq!(GeminiClient::answer_text(&empty), None);
    let no_parts = GeminiResponse { candidates: vec![Candidate { content: Content { parts: vec![] } }] };
    assert_eq!(GeminiClient::answer_text(&no_parts), None);
}

#[test]
fn secured_source_rewrites_every_report() {
    let m = SelfModifier::new();
    let src = "fn main() {\n    println!(\"Successfully compiled to {}\", output_file);\n    x();\n    println!(\"Successfully compiled to {}\", output_file);\n}\n";
    assert_eq!(
        m.secured_source(src),
        src.replace(
            "println!(\"Successfully compiled to {}\", output_file);",
            "println!(\"Successfully compiled to {} with enhanced security!\", output_file);"
        )
    );
    assert_eq!(m.secured_source("no report here"), "no report here");
}

#[test]
fn obfuscation_reorders_a_long_program() {
    let unshuffled: Vec<Instruction> = (0..40u8)
        .map(|r| Instruction::Load(Operand::Register(r), Operand::Immediate(r as i64)))
        .collect();
    let mut instrs = unshuffled.clone();
    let mut obf = Obfuscator::new();
    obf.obfuscate(&mut instrs);
    assert_eq!(instrs.len(), unshuffled.len());
    assert_ne!(instrs, unshuffled);
}
