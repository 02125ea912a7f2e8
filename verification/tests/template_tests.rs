use music_text::lilypond_templates::TemplateContext;

#[test]
fn test_template_context_builder() {
    let context = TemplateContext::builder().title("Test Song").staves("c d e f").build();

    assert_eq!(context.title, Some("Test Song".to_string()));
    assert_eq!(context.staves, "c d e f");
    assert_eq!(context.version, "2.24.0");
}
