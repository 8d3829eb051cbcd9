use audio_ai::ai_client::{feedback_from_content, model_or_default, FeedbackError, MockAIClient};
use audio_ai::audio_analysis::AnalysisResult;
use audio_ai::comparison::ComparisonMetrics;

fn metrics(overall: u32, note: u32, pitch: u32, timing: u32, rhythm: u32) -> ComparisonMetrics {
    ComparisonMetrics {
        overall_similarity: overall,
        note_accuracy: note,
        pitch_accuracy: pitch,
        timing_accuracy: timing,
        rhythm_accuracy: rhythm,
        missed_notes: vec![],
        extra_notes: vec![],
        pitch_errors: vec![],
        timing_errors: vec![],
    }
}

fn recording() -> AnalysisResult {
    AnalysisResult {
        pitch_hz: vec![440_000, 440_000],
        tempo_bpm: Some(120_000),
        onsets: vec![0, 500],
        spectral_centroid: vec![1_000_000, 1_000_000],
        streaming: None,
    }
}

#[test]
fn test_mock_client_comparison() {
    let mut mock =
        MockAIClient::new().with_comparison_response("Test feedback for comparison".to_string());

    let metrics = metrics(850_000, 900_000, 800_000, 850_000, 880_000);

    let result = mock.send_comparison(&metrics, "ref.wav", "player.wav");

    assert_eq!(result.content, "Test feedback for comparison");
    assert_eq!(mock.comparison_call_count(), 1);
}

#[test]
fn test_mock_client_single_analysis() {
    let mut mock =
        MockAIClient::new().with_single_response("Test feedback for single file".to_string());

    let analysis = recording();

    let result = mock.send_single_analysis(&analysis, "test.wav");

    assert_eq!(result.content, "Test feedback for single file");
    assert_eq!(mock.single_call_count(), 1);
}

#[test]
fn test_ai_feedback_for_multiple_comparisons() {
    // Test that the mock client can handle multiple calls
    let mut mock_client =
        MockAIClient::new().with_comparison_response("First feedback response".to_string());

    // Create a simple metrics object
    let metrics = metrics(900_000, 950_000, 880_000, 920_000, 900_000);

    // Make multiple calls
    for i in 1..=3 {
        let result = mock_client.send_comparison(&metrics, "ref.wav", &format!("student_{}.wav", i));

        assert_eq!(result.content, "First feedback response");
    }

    assert_eq!(mock_client.comparison_call_count(), 3);
}

#[test]
fn test_ai_feedback_handles_poor_performance() {
    // Create metrics representing a poor performance
    let mut metrics = metrics(450_000, 500_000, 400_000, 480_000, 420_000);
    metrics.missed_notes = vec!["E4 at 1.2s".to_string(), "G4 at 2.5s".to_string()];
    metrics.extra_notes = vec!["F#4 at 1.8s".to_string()];

    // Create a mock AI client with constructive critical feedback
    let expected_feedback = "This piece needs more practice. Your overall similarity is 45%, \
        which indicates several areas for improvement:\n\
        1. You missed 2 notes (E4 and G4) - make sure to play all notes in the piece\n\
        2. You played an extra F# that isn't in the original\n\
        3. Pitch accuracy is at 40% - work with a tuner to improve intonation\n\
        4. Timing is off - practice with a metronome at a slower tempo first\n\
        \n\
        Don't be discouraged! Break the piece into smaller sections and master each one \
        before putting it all together. You've got this!";

    let mut mock_client =
        MockAIClient::new().with_comparison_response(expected_feedback.to_string());

    // Send comparison to mock AI
    let result = mock_client.send_comparison(&metrics, "reference.wav", "student.wav");

    // Verify the constructive criticism was returned
    assert_eq!(result.content, expected_feedback);
    assert!(result.content.contains("45%"));
    assert!(result.content.contains("improvement"));
    assert!(result.content.contains("practice"));
}

#[test]
fn test_ai_feedback_for_excellent_performance() {
    // Create metrics representing an excellent performance
    let metrics = metrics(970_000, 980_000, 960_000, 980_000, 970_000);

    // Create a mock AI client with positive feedback
    let expected_feedback = "Outstanding performance! Your overall similarity is 97%, \
        which is excellent. You've clearly put in the practice time:\n\
        - Note accuracy: 98% - nearly perfect note selection\n\
        - Pitch accuracy: 96% - great intonation\n\
        - Timing accuracy: 98% - very tight timing\n\
        - Rhythm accuracy: 97% - solid rhythmic feel\n\
        \n\
        You're playing at a very high level. To reach perfection, focus on the few \
        remaining pitch variations - they're very subtle but worth addressing. \
        Consider recording yourself and comparing to hear the tiny differences. \
        Excellent work overall!";

    let mut mock_client =
        MockAIClient::new().with_comparison_response(expected_feedback.to_string());

    // Send comparison to mock AI
    let result = mock_client.send_comparison(&metrics, "reference.wav", "student.wav");

    // Verify the positive feedback was returned
    assert_eq!(result.content, expected_feedback);
    assert!(result.content.contains("97%"));
    assert!(result.content.contains("Outstanding") || result.content.contains("excellent"));
}

#[test]
fn fresh_mock_has_default_answers_and_no_calls() {
    let mut mock = MockAIClient::new();
    assert_eq!(mock.comparison_call_count(), 0);
    assert_eq!(mock.single_call_count(), 0);
    assert_eq!(
        mock.send_comparison(&metrics(0, 0, 0, 0, 0), "a.wav", "b.wav").content,
        "Great job! Your performance shows excellent progress. Keep practicing the timing on measures 3-4."
    );
    assert_eq!(
        mock.send_single_analysis(&recording(), "a.wav").content,
        "Nice playing! The notes are clear and the tempo is consistent. Work on your vibrato technique."
    );
    assert_eq!(mock.comparison_call_count(), 1);
    assert_eq!(mock.single_call_count(), 1);
}

#[test]
fn mock_counts_each_kind_of_request_apart() {
    let mut mock = MockAIClient::new().with_comparison_response("again".to_string());
    for _ in 0..3 {
        assert_eq!(mock.send_comparison(&metrics(0, 0, 0, 0, 0), "a.wav", "b.wav").content, "again");
    }
    assert_eq!(mock.comparison_call_count(), 3);
    assert_eq!(mock.single_call_count(), 0);
}

#[test]
fn mock_gives_its_answers_in_turn_and_round_again() {
    let mut mock = MockAIClient::new()
        .with_single_response("one".to_string())
        .and_single_response("two".to_string())
        .and_single_response("three".to_string())
        .and_comparison_response("second".to_string());
    let given: Vec<String> =
        (0..7).map(|_| mock.send_single_analysis(&recording(), "a.wav").content).collect();
    assert_eq!(given, vec!["one", "two", "three", "one", "two", "three", "one"]);
    assert_eq!(mock.single_call_count(), 7);

    let first = mock.send_comparison(&metrics(0, 0, 0, 0, 0), "a.wav", "b.wav").content;
    assert!(first.starts_with("Great job!"));
    assert_eq!(mock.send_comparison(&metrics(0, 0, 0, 0, 0), "a.wav", "b.wav").content, "second");
}

#[test]
fn the_request_on_a_comparison_gives_scores_and_counts() {
    let metrics = audio_ai::comparison::ComparisonMetrics {
        overall_similarity: 850_000,
        note_accuracy: 900_000,
        pitch_accuracy: 800_000,
        timing_accuracy: 854_449,
        rhythm_accuracy: 1_000_000,
        missed_notes: vec!["B4 at 0.50s".to_string()],
        extra_notes: vec![],
        pitch_errors: vec![],
        timing_errors: vec![],
    };
    assert_eq!(
        audio_ai::ai_client::comparison_prompt(&metrics, "ref.wav", "player.wav"),
        "I'm comparing a student's guitar performance to a reference recording.\n\n\
         Reference: ref.wav\n\
         Student: player.wav\n\n\
         Performance Metrics:\n\
         - Overall Similarity: 85.0%\n\
         - Note Accuracy: 90.0%\n\
         - Pitch Accuracy: 80.0%\n\
         - Timing Accuracy: 85.4%\n\
         - Rhythm Accuracy: 100.0%\n\n\
         Errors Found:\n\
         - Missed Notes: 1\n\
         - Extra Notes: 0\n\
         - Pitch Errors: 0 instances\n\
         - Timing Errors: 0 instances\n\n\
         Please provide constructive feedback focusing on:\n\
         1. What the student did well\n\
         2. Specific areas for improvement\n\
         3. Practice suggestions\n\
         4. Overall assessment"
    );
}

#[test]
fn the_request_on_one_recording_gives_its_features() {
    let analysis = audio_ai::audio_analysis::AnalysisResult {
        pitch_hz: vec![440_000, 440_000, 523_251, 523_251, 659_255, 659_255],
        tempo_bpm: Some(120_000),
        onsets: vec![0, 100, 200, 300, 400, 500],
        spectral_centroid: vec![1_000_000; 6],
        streaming: None,
    };
    assert_eq!(
        audio_ai::ai_client::single_analysis_prompt(&analysis, "test.wav"),
        "Analyze this guitar recording. Provide feedback on timing, accuracy, and tone.\n\n\
         Features extracted:\n\
         - First detected pitch: 440.00 Hz\n\
         - Tempo: 120.0 bpm\n\
         - Number of onsets: 6\n\
         - Detected 3 distinct notes: [\"A4\", \"C5\", \"E5\"]\n\n\
         File: test.wav"
    );
    let silent = audio_ai::audio_analysis::AnalysisResult {
        pitch_hz: vec![],
        tempo_bpm: None,
        onsets: vec![],
        spectral_centroid: vec![],
        streaming: None,
    };
    assert_eq!(
        audio_ai::ai_client::single_analysis_prompt(&silent, ""),
        "Analyze this guitar recording. Provide feedback on timing, accuracy, and tone.\n\n\
         Features extracted:\n\
         - First detected pitch: 0.00 Hz\n\
         - Tempo: N/A\n\
         - Number of onsets: 0\n\
         - Detected 0 distinct notes: []\n\n\
         File: "
    );
}

#[test]
fn the_request_on_one_recording_lists_ten_names_at_the_most() {
    // twelve notes, alternately A4 and C5, each 100 ms long
    let mut pitch_hz = vec![];
    let mut onsets = vec![];
    for i in 0..13u32 {
        pitch_hz.push(if i % 2 == 0 { 440_000 } else { 523_251 });
        onsets.push(100 * i);
    }
    let analysis = audio_ai::audio_analysis::AnalysisResult {
        pitch_hz,
        tempo_bpm: None,
        onsets,
        spectral_centroid: vec![],
        streaming: None,
    };
    let prompt = audio_ai::ai_client::single_analysis_prompt(&analysis, "long.wav");
    assert!(prompt.contains(
        "- Detected 12 distinct notes: [\"A4\", \"C5\", \"A4\", \"C5\", \"A4\", \"C5\", \"A4\", \"C5\", \"A4\", \"C5\"]\n"
    ));
}

#[test]
fn the_role_of_the_service_depends_on_the_request() {
    assert_eq!(
        audio_ai::ai_client::system_prompt(true),
        "You are an expert guitar teacher providing constructive feedback to students. Be specific, encouraging, and helpful."
    );
    assert_eq!(
        audio_ai::ai_client::system_prompt(false),
        "You are a guitar teacher analyzing student recordings."
    );
}

#[test]
fn feedback_is_the_text_of_the_answer_or_an_error() {
    assert_eq!(feedback_from_content(Some("Well played.".to_string())).unwrap().content, "Well played.");
    assert_eq!(feedback_from_content(Some(String::new())).unwrap().content, "");
    let error = feedback_from_content(None).unwrap_err();
    assert_eq!(error, FeedbackError::MissingContent);
    assert_eq!(error.message(), "Failed to extract AI response");
    assert_eq!(model_or_default(None), "gpt-4o-mini");
    assert_eq!(model_or_default(Some("another".to_string())), "another");
}
