//! The output entry model: the shapes the emission stage hands to the
//! external writer.  How these are laid out on disk is the writer's business;
//! the pipeline only builds the values.

use vstd::prelude::*;

verus! {

/// Mathematical model of a definition.
pub enum DetailedDefinitionV {
    Text(Seq<char>),
    Sense { sense: Seq<char>, translations: Seq<Seq<char>> },
}

/// One definition of an output term record: either a flat text definition, or
/// a structured block carrying a sense label followed by the translations
/// listed under that sense.
#[derive(Debug, PartialEq, Eq)]
pub enum DetailedDefinition {
    Text(String),
    Sense { sense: String, translations: Vec<String> },
}

impl DeepView for DetailedDefinition {
    type V = DetailedDefinitionV;

    open spec fn deep_view(&self) -> DetailedDefinitionV {
        match self {
            DetailedDefinition::Text(s) => DetailedDefinitionV::Text(s@),
            DetailedDefinition::Sense { sense, translations } => DetailedDefinitionV::Sense {
                sense: sense@,
                translations: translations.deep_view(),
            },
        }
    }
}

/// Mathematical model of a term-bank record.
pub struct TermBankV {
    pub word: Seq<char>,
    pub reading: Seq<char>,
    pub def_tags: Seq<char>,
    pub rules: Seq<char>,
    pub definitions: Seq<DetailedDefinitionV>,
}

/// One output term record: head word, reading, the part-of-speech tag used
/// both as definition tag and as rule identifier, and the definitions.
#[derive(Debug, PartialEq, Eq)]
pub struct TermBank(pub String, pub String, pub String, pub String, pub Vec<DetailedDefinition>);

impl DeepView for TermBank {
    type V = TermBankV;

    open spec fn deep_view(&self) -> TermBankV {
        TermBankV {
            word: self.0@,
            reading: self.1@,
            def_tags: self.2@,
            rules: self.3@,
            definitions: self.4.deep_view(),
        }
    }
}

/// Mathematical model of a phonetic transcription set.
pub struct PhoneticTranscriptionV {
    pub reading: Seq<char>,
    pub transcriptions: Seq<Seq<char>>,
}

/// The resolved reading of a word together with its phonetic transcriptions.
#[derive(Debug, PartialEq, Eq)]
pub struct PhoneticTranscription {
    pub reading: String,
    pub transcriptions: Vec<String>,
}

impl DeepView for PhoneticTranscription {
    type V = PhoneticTranscriptionV;

    open spec fn deep_view(&self) -> PhoneticTranscriptionV {
        PhoneticTranscriptionV {
            reading: self.reading@,
            transcriptions: self.transcriptions.deep_view(),
        }
    }
}

/// Mathematical model of a phonetic metadata record.
pub struct TermPhoneticTranscriptionV {
    pub word: Seq<char>,
    pub mode: Seq<char>,
    pub transcription: PhoneticTranscriptionV,
}

/// One phonetic metadata record: the word, the metadata mode label, and the
/// transcription set.
#[derive(Debug, PartialEq, Eq)]
pub struct TermPhoneticTranscription(pub String, pub String, pub PhoneticTranscription);

impl DeepView for TermPhoneticTranscription {
    type V = TermPhoneticTranscriptionV;

    open spec fn deep_view(&self) -> TermPhoneticTranscriptionV {
        TermPhoneticTranscriptionV {
            word: self.0@,
            mode: self.1@,
            transcription: self.2.deep_view(),
        }
    }
}

/// Mathematical model of a metadata record.
pub enum TermBankMetaV {
    TermPhoneticTranscription(TermPhoneticTranscriptionV),
}

/// A metadata record of the output: at present only phonetic transcriptions.
#[derive(Debug, PartialEq, Eq)]
pub enum TermBankMeta {
    TermPhoneticTranscription(TermPhoneticTranscription),
}

impl DeepView for TermBankMeta {
    type V = TermBankMetaV;

    open spec fn deep_view(&self) -> TermBankMetaV {
        match self {
            TermBankMeta::TermPhoneticTranscription(t) => TermBankMetaV::TermPhoneticTranscription(
                t.deep_view(),
            ),
        }
    }
}

/// Mathematical model of an output entry.
pub enum YomitanEntryV {
    TermBank(TermBankV),
    TermBankMeta(TermBankMetaV),
}

/// One output entry handed to the external writer: a term record or a
/// metadata record.
#[derive(Debug, PartialEq, Eq)]
pub enum YomitanEntry {
    TermBank(TermBank),
    TermBankMeta(TermBankMeta),
}

impl DeepView for YomitanEntry {
    type V = YomitanEntryV;

    open spec fn deep_view(&self) -> YomitanEntryV {
        match self {
            YomitanEntry::TermBank(t) => YomitanEntryV::TermBank(t.deep_view()),
            YomitanEntry::TermBankMeta(m) => YomitanEntryV::TermBankMeta(m.deep_view()),
        }
    }
}

/// The intermediate and output collection shape shared by the simple kinds.
pub type E = Vec<YomitanEntry>;

/// Mathematical model of a labelled entry set.
pub struct LabelledYomitanEntryV {
    pub label: Seq<char>,
    pub entries: Seq<YomitanEntryV>,
}

/// One labelled output entry set: the label names the output artifact
/// category the entries belong to.
#[derive(Debug)]
pub struct LabelledYomitanEntry {
    pub label: &'static str,
    pub entries: E,
}

impl DeepView for LabelledYomitanEntry {
    type V = LabelledYomitanEntryV;

    open spec fn deep_view(&self) -> LabelledYomitanEntryV {
        LabelledYomitanEntryV { label: self.label@, entries: self.entries.deep_view() }
    }
}

impl LabelledYomitanEntry {
    pub fn new(label: &'static str, entries: Vec<YomitanEntry>) -> (l: LabelledYomitanEntry)
        ensures
            l.deep_view() == (LabelledYomitanEntryV {
                label: label@,
                entries: entries.deep_view(),
            }),
    {
        LabelledYomitanEntry { label, entries }
    }
}

} // verus!
