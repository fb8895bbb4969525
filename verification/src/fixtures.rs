//! Small values for trying the domain set out.
use crate::backend::DynamicDomainSetConfig;
use crate::name::{Name, Question};
use crate::text;
use vstd::prelude::*;

verus! {

/// The name that an ASCII text spells.
pub fn test_name(raw: &str) -> (res: Name)
    requires
        vstd::utf8::is_ascii_chars(raw@),
    ensures
        res@ == text::strip_dots(text::lowered(raw@)),
{
    Name::from_ascii(raw).unwrap()
}

/// The question for the name that an ASCII text spells.
pub fn test_question(raw: &str) -> (res: Question)
    requires
        vstd::utf8::is_ascii_chars(raw@),
    ensures
        res@ == text::strip_dots(text::lowered(raw@)),
{
    Question::new(test_name(raw))
}

/// Settings under which every append is written at once.
pub fn test_config(path: String) -> (res: DynamicDomainSetConfig)
    ensures
        res.path == path,
        res.bootstrap_rules@ == Seq::<String>::empty(),
        res.queue_size == 8,
        res.batch_size == 1,
        res.flush_interval_ms == 10,
{
    DynamicDomainSetConfig {
        path,
        bootstrap_rules: Vec::new(),
        queue_size: 8,
        batch_size: 1,
        flush_interval_ms: 10,
    }
}

} // verus!
