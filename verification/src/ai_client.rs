//! Feedback on a performance: the requests that are made of the service that
//! writes it, what is taken from its answers, and a stand-in for the service.

use vstd::prelude::*;
use crate::audio_analysis::AnalysisResult;
use crate::comparison::{note_views, ComparisonMetrics, MetricsView, NoteSequence, NoteView};
use crate::listing::percent_label;
use crate::segment::{extract_note_sequence, segmented_notes, standard_config};
use crate::text::{append_decimal, append_fixed, decimal, fixed_label};

verus! {

/// The most note names that a request for feedback on one recording lists.
pub const LISTED_NOTES: usize = 10;

/// The feedback that was written on an analysis.
#[derive(Debug, Clone)]
pub struct AIFeedback {
    pub content: String,
}

/// The model that feedback is asked of where none is configured.
pub open spec fn default_model() -> Seq<char> {
    "gpt-4o-mini"@
}

/// The model that feedback is asked of: the configured one, or the default.
pub fn model_or_default(configured: Option<String>) -> (model: String)
    ensures
        model@ == (match configured {
            Some(name) => name@,
            None => default_model(),
        }),
{
    match configured {
        Some(name) => name,
        None => String::from_str("gpt-4o-mini"),
    }
}

/// Why no feedback came of an answer of the service.
#[derive(Debug, Clone, Copy, PartialEq, Eq)]
pub enum FeedbackError {
    /// The answer holds no text where the feedback should be.
    MissingContent,
}

impl FeedbackError {
    /// What went wrong, in words.
    pub fn message(&self) -> (message: String)
        ensures
            message@ == "Failed to extract AI response"@,
    {
        String::from_str("Failed to extract AI response")
    }
}

/// The feedback in an answer of the service, given the text found where the
/// feedback should be, if any was.
pub fn feedback_from_content(content: Option<String>) -> (feedback: Result<
    AIFeedback,
    FeedbackError,
>)
    ensures
        content is Some ==> feedback is Ok && feedback.unwrap().content == content.unwrap(),
        content is None ==> feedback == Err::<AIFeedback, FeedbackError>(
            FeedbackError::MissingContent,
        ),
{
    match content {
        Some(text) => Ok(AIFeedback { content: text }),
        None => Err(FeedbackError::MissingContent),
    }
}

/// The answer that a fresh stand-in gives to a comparison.
pub open spec fn default_comparison_response() -> Seq<char> {
    "Great job! Your performance shows excellent progress. Keep practicing the timing on measures 3-4."@
}

/// The answer that a fresh stand-in gives to the analysis of one recording.
pub open spec fn default_single_response() -> Seq<char> {
    "Nice playing! The notes are clear and the tempo is consistent. Work on your vibrato technique."@
}

/// The response that is given to request number `calls`, counted from zero:
/// the responses are given in turn, and after the last the first again.
pub open spec fn canned_response(responses: Seq<String>, calls: nat) -> Seq<char> {
    responses[(calls % responses.len()) as int]@
}

/// A stand-in for the feedback service: it answers from two lists of canned
/// responses, each in turn and round again, and counts the requests of each
/// kind.
pub struct MockAIClient {
    comparison_responses: Vec<String>,
    single_analysis_responses: Vec<String>,
    comparison_call_count: usize,
    single_call_count: usize,
}

impl MockAIClient {
    /// A stand-in always has an answer of each kind.
    #[verifier::type_invariant]
    spec fn has_responses(&self) -> bool {
        self.comparison_responses@.len() > 0 && self.single_analysis_responses@.len() > 0
    }

    /// The canned responses to a comparison.
    pub closed spec fn comparison_answers(&self) -> Seq<String> {
        self.comparison_responses@
    }

    /// The canned responses to the analysis of one recording.
    pub closed spec fn single_answers(&self) -> Seq<String> {
        self.single_analysis_responses@
    }

    /// The requests for feedback on a comparison so far.
    pub closed spec fn comparison_calls(&self) -> nat {
        self.comparison_call_count as nat
    }

    /// The requests for feedback on one recording so far.
    pub closed spec fn single_calls(&self) -> nat {
        self.single_call_count as nat
    }

    /// A stand-in with one canned response of each kind and no request
    /// counted.
    pub fn new() -> (client: Self)
        ensures
            client.comparison_answers().len() == 1,
            client.comparison_answers()[0]@ == default_comparison_response(),
            client.single_answers().len() == 1,
            client.single_answers()[0]@ == default_single_response(),
            client.comparison_calls() == 0,
            client.single_calls() == 0,
    {
        let mut comparison_responses: Vec<String> = Vec::new();
        comparison_responses.push(
            String::from_str(
                "Great job! Your performance shows excellent progress. Keep practicing the timing on measures 3-4.",
            ),
        );
        let mut single_analysis_responses: Vec<String> = Vec::new();
        single_analysis_responses.push(
            String::from_str(
                "Nice playing! The notes are clear and the tempo is consistent. Work on your vibrato technique.",
            ),
        );
        MockAIClient {
            comparison_responses,
            single_analysis_responses,
            comparison_call_count: 0,
            single_call_count: 0,
        }
    }

    /// The same stand-in with `response` as its only answer to a comparison.
    pub fn with_comparison_response(self, response: String) -> (client: Self)
        ensures
            client.comparison_answers() == seq![response],
            client.single_answers() == self.single_answers(),
            client.comparison_calls() == self.comparison_calls(),
            client.single_calls() == self.single_calls(),
    {
        proof {
            use_type_invariant(&self);
        }
        let mut responses: Vec<String> = Vec::new();
        responses.push(response);
        assert(responses@ =~= seq![response]);
        MockAIClient {
            comparison_responses: responses,
            single_analysis_responses: self.single_analysis_responses,
            comparison_call_count: self.comparison_call_count,
            single_call_count: self.single_call_count,
        }
    }

    /// The same stand-in with `response` as its only answer to the analysis
    /// of one recording.
    pub fn with_single_response(self, response: String) -> (client: Self)
        ensures
            client.single_answers() == seq![response],
            client.comparison_answers() == self.comparison_answers(),
            client.comparison_calls() == self.comparison_calls(),
            client.single_calls() == self.single_calls(),
    {
        proof {
            use_type_invariant(&self);
        }
        let mut responses: Vec<String> = Vec::new();
        responses.push(response);
        assert(responses@ =~= seq![response]);
        MockAIClient {
            comparison_responses: self.comparison_responses,
            single_analysis_responses: responses,
            comparison_call_count: self.comparison_call_count,
            single_call_count: self.single_call_count,
        }
    }

    /// The requests for feedback on a comparison so far.
    pub fn comparison_call_count(&self) -> (count: usize)
        ensures
            count == self.comparison_calls(),
    {
        self.comparison_call_count
    }

    /// The requests for feedback on one recording so far.
    pub fn single_call_count(&self) -> (count: usize)
        ensures
            count == self.single_calls(),
    {
        self.single_call_count
    }

    /// The same stand-in with `response` added after its answers to a
    /// comparison.
    pub fn and_comparison_response(self, response: String) -> (client: Self)
        ensures
            client.comparison_answers() == self.comparison_answers().push(response),
            client.single_answers() == self.single_answers(),
            client.comparison_calls() == self.comparison_calls(),
            client.single_calls() == self.single_calls(),
    {
        proof {
            use_type_invariant(&self);
        }
        let mut responses = self.comparison_responses;
        responses.push(response);
        MockAIClient {
            comparison_responses: responses,
            single_analysis_responses: self.single_analysis_responses,
            comparison_call_count: self.comparison_call_count,
            single_call_count: self.single_call_count,
        }
    }

    /// The same stand-in with `response` added after its answers to the
    /// analysis of one recording.
    pub fn and_single_response(self, response: String) -> (client: Self)
        ensures
            client.single_answers() == self.single_answers().push(response),
            client.comparison_answers() == self.comparison_answers(),
            client.comparison_calls() == self.comparison_calls(),
            client.single_calls() == self.single_calls(),
    {
        proof {
            use_type_invariant(&self);
        }
        let mut responses = self.single_analysis_responses;
        responses.push(response);
        MockAIClient {
            comparison_responses: self.comparison_responses,
            single_analysis_responses: responses,
            comparison_call_count: self.comparison_call_count,
            single_call_count: self.single_call_count,
        }
    }

    /// Answers a request for feedback on a comparison, whatever the
    /// comparison: the canned responses are given in turn, and after the last
    /// the first again.
    pub fn send_comparison(
        &mut self,
        metrics: &ComparisonMetrics,
        reference_path: &str,
        player_path: &str,
    ) -> (feedback: AIFeedback)
        requires
            old(self).comparison_calls() < usize::MAX,
        ensures
            final(self).comparison_answers().len() > 0,
            feedback.content@ == canned_response(
                old(self).comparison_answers(),
                old(self).comparison_calls(),
            ),
            final(self).comparison_calls() == old(self).comparison_calls() + 1,
            final(self).single_calls() == old(self).single_calls(),
            final(self).comparison_answers() == old(self).comparison_answers(),
            final(self).single_answers() == old(self).single_answers(),
    {
        proof {
            use_type_invariant(&*self);
        }
        let index: usize = self.comparison_call_count % self.comparison_responses.len();
        let content = self.comparison_responses[index].clone();
        self.comparison_call_count = self.comparison_call_count + 1;
        AIFeedback { content }
    }

    /// Answers a request for feedback on one recording, whatever the
    /// recording: the canned responses are given in turn, and after the last
    /// the first again.
    pub fn send_single_analysis(&mut self, analysis: &AnalysisResult, file_path: &str) -> (feedback:
        AIFeedback)
        requires
            old(self).single_calls() < usize::MAX,
        ensures
            final(self).single_answers().len() > 0,
            feedback.content@ == canned_response(
                old(self).single_answers(),
                old(self).single_calls(),
            ),
            final(self).single_calls() == old(self).single_calls() + 1,
            final(self).comparison_calls() == old(self).comparison_calls(),
            final(self).comparison_answers() == old(self).comparison_answers(),
            final(self).single_answers() == old(self).single_answers(),
    {
        proof {
            use_type_invariant(&*self);
        }
        let index: usize = self.single_call_count % self.single_analysis_responses.len();
        let content = self.single_analysis_responses[index].clone();
        self.single_call_count = self.single_call_count + 1;
        AIFeedback { content }
    }
}

/// The role given to the service for feedback on a comparison.
pub open spec fn comparison_system_prompt() -> Seq<char> {
    "You are an expert guitar teacher providing constructive feedback to students. Be specific, encouraging, and helpful."@
}

/// The role given to the service for feedback on one recording.
pub open spec fn single_system_prompt() -> Seq<char> {
    "You are a guitar teacher analyzing student recordings."@
}

/// The role given to the service: that of a teacher who compares where
/// `for_comparison` holds, else that of one who analyses.
pub fn system_prompt(for_comparison: bool) -> (prompt: String)
    ensures
        prompt@ == (if for_comparison {
            comparison_system_prompt()
        } else {
            single_system_prompt()
        }),
{
    if for_comparison {
        String::from_str(
            "You are an expert guitar teacher providing constructive feedback to students. Be specific, encouraging, and helpful.",
        )
    } else {
        String::from_str("You are a guitar teacher analyzing student recordings.")
    }
}

/// The request for feedback on a comparison: the two recordings by their
/// paths, the five scores as percentages with one decimal, the number of
/// notes and errors of each kind, and what the feedback is to dwell on.
pub open spec fn comparison_prompt_of(
    metrics: MetricsView,
    reference_path: Seq<char>,
    player_path: Seq<char>,
) -> Seq<char> {
    "I'm comparing a student's guitar performance to a reference recording.\n\nReference: "@
        + reference_path + "\nStudent: "@ + player_path
        + "\n\nPerformance Metrics:\n- Overall Similarity: "@ + percent_label(
        metrics.overall_similarity,
    ) + "\n- Note Accuracy: "@ + percent_label(metrics.note_accuracy) + "\n- Pitch Accuracy: "@
        + percent_label(metrics.pitch_accuracy) + "\n- Timing Accuracy: "@ + percent_label(
        metrics.timing_accuracy,
    ) + "\n- Rhythm Accuracy: "@ + percent_label(metrics.rhythm_accuracy)
        + "\n\nErrors Found:\n- Missed Notes: "@ + decimal(metrics.missed_notes.len())
        + "\n- Extra Notes: "@ + decimal(metrics.extra_notes.len()) + "\n- Pitch Errors: "@
        + decimal(metrics.pitch_errors.len()) + " instances\n- Timing Errors: "@ + decimal(
        metrics.timing_errors.len(),
    )
        + " instances\n\nPlease provide constructive feedback focusing on:\n1. What the student did well\n2. Specific areas for improvement\n3. Practice suggestions\n4. Overall assessment"@
}

/// Appends a score as a percentage with one decimal.
fn append_percent(out: &mut String, score: u32)
    ensures
        final(out)@ == old(out)@ + percent_label(score),
{
    append_fixed(out, score as u64, 4, 1);
    out.append("%");
    assert(final(out)@ =~= old(out)@ + percent_label(score));
}

/// Writes the request for feedback on a comparison.
pub fn comparison_prompt(metrics: &ComparisonMetrics, reference_path: &str, player_path: &str) -> (prompt:
    String)
    ensures
        prompt@ == comparison_prompt_of(metrics@, reference_path@, player_path@),
{
    let mut prompt = String::from_str(
        "I'm comparing a student's guitar performance to a reference recording.\n\nReference: ",
    );
    prompt.append(reference_path);
    prompt.append("\nStudent: ");
    prompt.append(player_path);
    prompt.append("\n\nPerformance Metrics:\n- Overall Similarity: ");
    append_percent(&mut prompt, metrics.overall_similarity);
    prompt.append("\n- Note Accuracy: ");
    append_percent(&mut prompt, metrics.note_accuracy);
    prompt.append("\n- Pitch Accuracy: ");
    append_percent(&mut prompt, metrics.pitch_accuracy);
    prompt.append("\n- Timing Accuracy: ");
    append_percent(&mut prompt, metrics.timing_accuracy);
    prompt.append("\n- Rhythm Accuracy: ");
    append_percent(&mut prompt, metrics.rhythm_accuracy);
    prompt.append("\n\nErrors Found:\n- Missed Notes: ");
    append_decimal(&mut prompt, metrics.missed_notes.len() as u64);
    prompt.append("\n- Extra Notes: ");
    append_decimal(&mut prompt, metrics.extra_notes.len() as u64);
    prompt.append("\n- Pitch Errors: ");
    append_decimal(&mut prompt, metrics.pitch_errors.len() as u64);
    prompt.append(" instances\n- Timing Errors: ");
    append_decimal(&mut prompt, metrics.timing_errors.len() as u64);
    prompt.append(
        " instances\n\nPlease provide constructive feedback focusing on:\n1. What the student did well\n2. Specific areas for improvement\n3. Practice suggestions\n4. Overall assessment",
    );
    prompt
}

/// The first frequency of a recording, in hertz with two decimals and the
/// unit; zero hertz where it has none.
pub open spec fn first_pitch_label(pitch_hz: Seq<u32>) -> Seq<char> {
    fixed_label(
        (if pitch_hz.len() > 0 {
            pitch_hz[0]
        } else {
            0
        }) as nat,
        3,
        2,
    ) + " Hz"@
}

/// A tempo in beats per minute with one decimal and the unit, or `N/A`.
pub open spec fn tempo_label(tempo_bpm: Option<u32>) -> Seq<char> {
    match tempo_bpm {
        Some(tempo) => fixed_label(tempo as nat, 3, 1) + " bpm"@,
        None => "N/A"@,
    }
}

/// The first `n` names between quotation marks, a comma and a space between
/// each two.
pub open spec fn quoted_names(notes: Seq<NoteView>, n: int) -> Seq<char>
    decreases n,
{
    if n <= 0 {
        Seq::empty()
    } else if n == 1 {
        "\""@ + notes[0].note_name + "\""@
    } else {
        quoted_names(notes, n - 1) + ", \""@ + notes[n - 1].note_name + "\""@
    }
}

/// The names of the first ten notes as a list in square brackets.
pub open spec fn listed_names(notes: Seq<NoteView>) -> Seq<char> {
    "["@ + quoted_names(
        notes,
        if notes.len() < LISTED_NOTES {
            notes.len() as int
        } else {
            LISTED_NOTES as int
        },
    ) + "]"@
}

/// The request for feedback on one recording: its first frequency, its
/// tempo, the number of its onsets, the number of its notes with the names
/// of the first ten, and its path.
pub open spec fn single_prompt_of(
    pitch_hz: Seq<u32>,
    tempo_bpm: Option<u32>,
    onsets: Seq<u32>,
    file_path: Seq<char>,
) -> Seq<char> {
    let notes = segmented_notes(standard_config(), pitch_hz, onsets);
    "Analyze this guitar recording. Provide feedback on timing, accuracy, and tone.\n\nFeatures extracted:\n- First detected pitch: "@
        + first_pitch_label(pitch_hz) + "\n- Tempo: "@ + tempo_label(tempo_bpm)
        + "\n- Number of onsets: "@ + decimal(onsets.len()) + "\n- Detected "@ + decimal(
        notes.len(),
    ) + " distinct notes: "@ + listed_names(notes) + "\n\nFile: "@ + file_path
}

/// The first frequency of a recording, in hertz with its unit.
pub fn format_first_pitch(pitch_hz: &Vec<u32>) -> (label: String)
    ensures
        label@ == first_pitch_label(pitch_hz@),
{
    let mut label = String::new();
    append_first_pitch(&mut label, pitch_hz);
    assert(label@ =~= first_pitch_label(pitch_hz@));
    label
}

/// A tempo in beats per minute with its unit, or `N/A`.
pub fn format_tempo(tempo_bpm: Option<u32>) -> (label: String)
    ensures
        label@ == tempo_label(tempo_bpm),
{
    let mut label = String::new();
    append_tempo(&mut label, tempo_bpm);
    assert(label@ =~= tempo_label(tempo_bpm));
    label
}

/// Appends the first frequency of a recording.
fn append_first_pitch(out: &mut String, pitch_hz: &Vec<u32>)
    ensures
        final(out)@ == old(out)@ + first_pitch_label(pitch_hz@),
{
    let first: u32 = if pitch_hz.len() > 0 {
        pitch_hz[0]
    } else {
        0
    };
    append_fixed(out, first as u64, 3, 2);
    out.append(" Hz");
    assert(final(out)@ =~= old(out)@ + first_pitch_label(pitch_hz@));
}

/// Appends a tempo.
fn append_tempo(out: &mut String, tempo_bpm: Option<u32>)
    ensures
        final(out)@ == old(out)@ + tempo_label(tempo_bpm),
{
    match tempo_bpm {
        Some(tempo) => {
            append_fixed(out, tempo as u64, 3, 1);
            out.append(" bpm");
        },
        None => {
            out.append("N/A");
        },
    }
    assert(final(out)@ =~= old(out)@ + tempo_label(tempo_bpm));
}

/// Appends the names of the first ten notes as a list.
fn append_listed_names(out: &mut String, notes: &Vec<NoteSequence>)
    ensures
        final(out)@ == old(out)@ + listed_names(note_views(notes@)),
{
    let ghost views = note_views(notes@);
    let ghost start = out@;
    out.append("[");
    let mut i: usize = 0;
    while i < notes.len() && i < LISTED_NOTES
        invariant
            0 <= i <= notes.len(),
            i <= LISTED_NOTES,
            views == note_views(notes@),
            out@ == start + "["@ + quoted_names(views, i as int),
        decreases notes.len() - i,
    {
        let ghost before = out@;
        if i == 0 {
            out.append("\"");
        } else {
            out.append(", \"");
        }
        out.append(notes[i].note_name.as_str());
        out.append("\"");
        proof {
            assert(views[i as int].note_name == notes@[i as int].note_name@);
            assert(out@ =~= start + "["@ + quoted_names(views, i + 1));
        }
        i = i + 1;
    }
    out.append("]");
    assert(final(out)@ =~= old(out)@ + listed_names(note_views(notes@)));
}

/// Writes the request for feedback on one recording.
pub fn single_analysis_prompt(analysis: &AnalysisResult, file_path: &str) -> (prompt: String)
    ensures
        prompt@ == single_prompt_of(
            analysis.pitch_hz@,
            analysis.tempo_bpm,
            analysis.onsets@,
            file_path@,
        ),
{
    let notes = extract_note_sequence(analysis);
    let mut prompt = String::from_str(
        "Analyze this guitar recording. Provide feedback on timing, accuracy, and tone.\n\nFeatures extracted:\n- First detected pitch: ",
    );
    append_first_pitch(&mut prompt, &analysis.pitch_hz);
    prompt.append("\n- Tempo: ");
    append_tempo(&mut prompt, analysis.tempo_bpm);
    prompt.append("\n- Number of onsets: ");
    append_decimal(&mut prompt, analysis.onsets.len() as u64);
    prompt.append("\n- Detected ");
    append_decimal(&mut prompt, notes.len() as u64);
    prompt.append(" distinct notes: ");
    append_listed_names(&mut prompt, &notes);
    prompt.append("\n\nFile: ");
    prompt.append(file_path);
    prompt
}

} // verus!
