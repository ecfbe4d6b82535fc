//! Model calls and prices.
use pulse::decimal::Decimal;
use pulse::domain::llm::{LlmError, Message, ModelPrice, PriceTable, TokenUsage};
use pulse::domain::llm_call::{AttributedCallError, LlmCallId};

fn price(input: i64, output: i64) -> ModelPrice {
    ModelPrice {
        input_per_mtok: Decimal::new(input, 0),
        output_per_mtok: Decimal::new(output, 0),
    }
}

#[test]
fn token_usage_defaults_to_zero() {
    let u = TokenUsage::default();
    assert_eq!(u.input_tokens, 0);
    assert_eq!(u.output_tokens, 0);
}

#[test]
fn assistant_ctor_has_some_content_and_no_tool_calls() {
    match Message::assistant("hi") {
        Message::Assistant {
            content,
            tool_calls,
        } => {
            assert_eq!(content.as_deref(), Some("hi"));
            assert!(tool_calls.is_empty());
        }
        other => panic!("expected Assistant, got {other:?}"),
    }
}

#[test]
fn messages_keep_their_texts() {
    assert_eq!(
        Message::system("s"),
        Message::System {
            content: "s".to_owned()
        }
    );
    assert_eq!(
        Message::user("u"),
        Message::User {
            content: "u".to_owned()
        }
    );
    assert_eq!(
        Message::tool_result("call-1", "42"),
        Message::ToolResult {
            tool_call_id: "call-1".to_owned(),
            content: "42".to_owned(),
        }
    );
}

#[test]
fn llm_errors_display() {
    assert_eq!(
        LlmError::Provider("boom".to_owned()).to_string(),
        "llm provider error: boom"
    );
    assert_eq!(
        LlmError::Config("nope".to_owned()).to_string(),
        "llm config error: nope"
    );
    assert_eq!(
        LlmError::Local("clock".to_owned()).to_string(),
        "llm local error: clock"
    );
}

#[test]
fn price_table_cost_is_pure_decimal_in_native_currency() {
    let table = PriceTable::from_config("CNY", vec![("glm-5.1".to_owned(), price(1, 2))]);
    assert_eq!(table.currency(), "CNY");
    let cost = table
        .cost(
            "glm-5.1",
            &TokenUsage {
                input_tokens: 1000,
                output_tokens: 2000,
            },
        )
        .expect("known model prices");
    assert_eq!(cost.normalize(), Decimal::new(5, 3).normalize());
}

#[test]
fn price_table_cost_errors_on_unknown_model() {
    let table = PriceTable::default();
    let err = table
        .cost("nope", &TokenUsage::default())
        .expect_err("unknown model errors");
    assert!(matches!(err, LlmError::Config(_)));
    assert_eq!(err.to_string(), "llm config error: no price for model nope");
}

#[test]
fn a_later_price_replaces_an_earlier_one() {
    let table = PriceTable::from_config(
        "USD",
        vec![
            ("a".to_owned(), price(1, 1)),
            ("b".to_owned(), price(5, 5)),
            ("a".to_owned(), price(3, 3)),
        ],
    );
    let usage = TokenUsage {
        input_tokens: 1_000_000,
        output_tokens: 0,
    };
    assert_eq!(table.cost("a", &usage), Ok(Decimal::new(3, 0)));
    assert_eq!(table.cost("b", &usage), Ok(Decimal::new(5, 0)));
}

#[test]
fn a_cost_that_does_not_fit_is_reported() {
    let huge = Decimal::from_i128_with_scale(79_228_162_514_264_337_593_543_950_335, 0);
    let table = PriceTable::from_config(
        "USD",
        vec![(
            "a".to_owned(),
            ModelPrice {
                input_per_mtok: huge,
                output_per_mtok: huge,
            },
        )],
    );
    let usage = TokenUsage {
        input_tokens: 2,
        output_tokens: 2,
    };
    assert_eq!(table.checked_cost("a", &usage), Ok(None));
    assert!(table.checked_cost("b", &usage).is_err());
    let free = TokenUsage::default();
    assert_eq!(
        table.checked_cost("a", &free).unwrap(),
        Some(Decimal::zero())
    );
}

#[test]
fn llm_call_id_degrades_to_the_string_the_future_field_holds() {
    let ids: Vec<String> = vec![LlmCallId::new("call-1").as_str().to_owned()];
    assert_eq!(ids, vec!["call-1".to_owned()]);
}

#[test]
fn attribution_errors_have_texts() {
    let provider = AttributedCallError::Provider {
        error: LlmError::Provider("boom".to_owned()),
        llm_call_id: None,
    };
    assert_eq!(provider.to_string(), "llm provider error: boom");
    assert_eq!(
        AttributedCallError::LedgerRowMissing.to_string(),
        "the coach turn reached the provider but captured no ledger row: the provider or the \
         capture handle is not the one the ledger decorator writes through"
    );
    assert_eq!(
        AttributedCallError::LedgerRowsAmbiguous { seen: 2 }.to_string(),
        "the coach turn captured 2 ledger rows; one turn is one call is one row"
    );
    assert_eq!(
        AttributedCallError::CaptureBufferShrank { start: 3, len: 1 }.to_string(),
        "the capture buffer shrank during the call (was 3, now 1): the ids this turn minted are \
         gone, so no honest attribution is available"
    );
}

#[test]
fn price_tables_are_equal_whatever_their_order() {
    let entries = |ids: [&str; 2]| -> Vec<(String, ModelPrice)> {
        ids.iter()
            .map(|id| ((*id).to_owned(), price(i64::try_from(id.len()).unwrap(), 2)))
            .collect()
    };
    let table = PriceTable::from_config("CNY", entries(["a", "bb"]));
    let turned = PriceTable::from_config("CNY", entries(["bb", "a"]));
    assert_eq!(table, turned);
    assert_eq!(table.clone(), table);
    assert_eq!(table.clone().currency(), "CNY");
    assert_ne!(table, PriceTable::from_config("USD", entries(["a", "bb"])));
    assert_ne!(table, PriceTable::from_config("CNY", entries(["a", "cc"])));
    assert_ne!(table, PriceTable::default());
    let dearer = PriceTable::from_config(
        "CNY",
        vec![("a".to_owned(), price(1, 2)), ("bb".to_owned(), price(2, 3))],
    );
    assert_ne!(table, dearer);
    let rescaled = ModelPrice {
        input_per_mtok: Decimal::new(10, 1),
        output_per_mtok: Decimal::new(200, 2),
    };
    assert_eq!(
        PriceTable::from_config("CNY", vec![("a".to_owned(), rescaled)]),
        PriceTable::from_config("CNY", vec![("a".to_owned(), price(1, 2))])
    );
}
