use x0x_compute::runtime::{
    default_requested_slots, estimated_tokens, CreateReservationRequest,
    OpenAiChatCompletionRequest, OpenAiChatMessage,
};
use x0x_compute::{ComputeConfig, ComputeError, ModelConfig, SkeletonRuntimeAdapter};

fn config() -> ComputeConfig {
    let mut config = ComputeConfig::with_data_dir("./var/test".to_string());
    config.models = vec![
        ModelConfig {
            id: "qwen3.5:32b".to_string(),
            family: "qwen3.5".to_string(),
            context_window_tokens: 131_072,
            max_output_tokens: 8_192,
            max_parallel_reservations: 2,
            tags: vec!["coding".to_string(), "reasoning".to_string()],
        },
        ModelConfig {
            id: "gemma-4:27b".to_string(),
            family: "gemma-4".to_string(),
            context_window_tokens: 65_536,
            max_output_tokens: 4_096,
            max_parallel_reservations: 1,
            tags: vec!["fast".to_string()],
        },
    ];
    config
}

fn chat(model: &str, content: &str, stream: bool) -> OpenAiChatCompletionRequest {
    OpenAiChatCompletionRequest {
        model: model.to_string(),
        messages: vec![OpenAiChatMessage { role: "user".to_string(), content: content.to_string() }],
        stream,
        max_tokens: None,
    }
}

fn reserve(model: &str, consumer: &str, requested_slots: u16) -> CreateReservationRequest {
    CreateReservationRequest {
        model: model.to_string(),
        consumer: consumer.to_string(),
        requested_slots,
    }
}

#[test]
fn local_inventory_reflects_configured_models() {
    let runtime = SkeletonRuntimeAdapter::new(&config());
    let models = runtime.local_models();
    assert_eq!(models.len(), 2);
    assert_eq!(models[0].id, "gemma-4:27b");
    assert_eq!(models[1].id, "qwen3.5:32b");
}

#[test]
fn reservation_reduces_available_slots() {
    let mut runtime = SkeletonRuntimeAdapter::new(&config());
    let reservation = runtime
        .create_reservation(reserve("qwen3.5:32b", "alice", 1))
        .expect("create reservation");

    let models = runtime.local_models();
    let qwen = models.iter().find(|model| model.id == "qwen3.5:32b").expect("qwen inventory");
    assert_eq!(reservation.model, "qwen3.5:32b");
    assert_eq!(qwen.reserved_slots, 1);
    assert_eq!(qwen.available_slots, 1);
}

#[test]
fn reservation_rejects_capacity_overflow() {
    let mut runtime = SkeletonRuntimeAdapter::new(&config());
    let error = runtime
        .create_reservation(reserve("gemma-4:27b", "alice", 2))
        .expect_err("expected capacity error");

    assert!(matches!(
        error,
        ComputeError::ModelCapacityExceeded {
            model,
            requested_slots: 2,
            available_slots: 1,
        } if model == "gemma-4:27b"
    ));
}

#[test]
fn release_reservation_removes_it() {
    let mut runtime = SkeletonRuntimeAdapter::new(&config());
    let reservation = runtime
        .create_reservation(reserve("gemma-4:27b", "alice", 1))
        .expect("create reservation");

    runtime.release_reservation(&reservation.reservation_id).expect("release reservation");

    assert!(runtime.reservations().is_empty());
    let models = runtime.local_models();
    let gemma = models.iter().find(|model| model.id == "gemma-4:27b").expect("gemma inventory");
    assert_eq!(gemma.available_slots, 1);
}

#[test]
fn openai_models_reflect_inventory() {
    let runtime = SkeletonRuntimeAdapter::new(&config());
    let models = runtime.openai_models();
    assert_eq!(models.object, "list");
    assert_eq!(models.data.len(), 2);
    assert_eq!(models.data[0].object, "model");
}

#[test]
fn chat_completion_returns_skeleton_response() {
    let mut runtime = SkeletonRuntimeAdapter::new(&config());
    let response = runtime
        .chat_completion(chat("qwen3.5:32b", "hello trusted mesh", false))
        .expect("chat completion");

    assert_eq!(response.object, "chat.completion");
    assert_eq!(response.model, "qwen3.5:32b");
    assert!(response.choices[0].message.content.contains("hello trusted mesh"));
    assert!(response.usage.total_tokens >= response.usage.prompt_tokens);
}

#[test]
fn chat_completion_rejects_streaming_requests() {
    let mut runtime = SkeletonRuntimeAdapter::new(&config());
    let error = runtime
        .chat_completion(chat("qwen3.5:32b", "hello", true))
        .expect_err("expected streaming to be unsupported");

    assert!(matches!(error, ComputeError::UnsupportedFeature(_)));
}

#[test]
fn reservation_ids_count_up_with_six_digits() {
    let mut runtime = SkeletonRuntimeAdapter::new(&config());
    let first = runtime.create_reservation(reserve("qwen3.5:32b", "alice", 1)).expect("first");
    let second = runtime.create_reservation(reserve("qwen3.5:32b", "bob", 1)).expect("second");
    assert_eq!(first.reservation_id, "resv-000001");
    assert_eq!(second.reservation_id, "resv-000002");
    assert_eq!(first.consumer, "alice");
    assert_eq!(first.requested_slots, 1);
    let listed = runtime.reservations();
    assert_eq!(listed.len(), 2);
    assert_eq!(listed[0], first);
    assert_eq!(listed[1], second);
    let qwen = &runtime.local_models()[1];
    assert_eq!(qwen.reserved_slots, 2);
    assert_eq!(qwen.available_slots, 0);
    assert!(matches!(
        runtime.create_reservation(reserve("qwen3.5:32b", "carol", 1)),
        Err(ComputeError::ModelCapacityExceeded { requested_slots: 1, available_slots: 0, .. })
    ));
}

#[test]
fn reservation_requests_are_checked_in_order() {
    let mut runtime = SkeletonRuntimeAdapter::new(&config());
    match runtime.create_reservation(reserve("nope", "  \t", 0)) {
        Err(ComputeError::InvalidReservationRequest(message)) => {
            assert_eq!(message, "consumer must not be empty")
        }
        other => panic!("unexpected {other:?}"),
    }
    match runtime.create_reservation(reserve("nope", "alice", 0)) {
        Err(ComputeError::InvalidReservationRequest(message)) => {
            assert_eq!(message, "requested_slots must be at least 1")
        }
        other => panic!("unexpected {other:?}"),
    }
    match runtime.create_reservation(reserve("nope", "alice", 1)) {
        Err(ComputeError::ModelNotFound(model)) => assert_eq!(model, "nope"),
        other => panic!("unexpected {other:?}"),
    }
    assert!(runtime.reservations().is_empty());
}

#[test]
fn release_unknown_reservation_is_not_found() {
    let mut runtime = SkeletonRuntimeAdapter::new(&config());
    match runtime.release_reservation("resv-999999") {
        Err(ComputeError::ReservationNotFound(id)) => assert_eq!(id, "resv-999999"),
        other => panic!("unexpected {other:?}"),
    }
}

#[test]
fn chat_completion_answers_last_user_message() {
    let mut runtime = SkeletonRuntimeAdapter::new(&config());
    let request = OpenAiChatCompletionRequest {
        model: "gemma-4:27b".to_string(),
        messages: vec![
            OpenAiChatMessage { role: "user".to_string(), content: "first question".to_string() },
            OpenAiChatMessage { role: "user".to_string(), content: "  second  ".to_string() },
            OpenAiChatMessage { role: "assistant".to_string(), content: "reply".to_string() },
        ],
        stream: false,
        max_tokens: Some(10),
    };
    let response = runtime.chat_completion(request).expect("completion");
    assert_eq!(response.id, "chatcmpl-000001");
    assert_eq!(response.choices.len(), 1);
    assert_eq!(response.choices[0].index, 0);
    assert_eq!(response.choices[0].message.role, "assistant");
    assert_eq!(response.choices[0].message.content, "x0x-compute skeleton [gemma-4:27b] second");
    assert_eq!(response.choices[0].finish_reason, "stop");
    assert_eq!(response.usage.prompt_tokens, 4);
    assert_eq!(response.usage.completion_tokens, 4);
    assert_eq!(response.usage.total_tokens, 8);
    let again = runtime.chat_completion(chat("gemma-4:27b", "x", false)).expect("again");
    assert_eq!(again.id, "chatcmpl-000002");
}

#[test]
fn chat_completion_falls_back_to_last_message() {
    let mut runtime = SkeletonRuntimeAdapter::new(&config());
    let request = OpenAiChatCompletionRequest {
        model: "gemma-4:27b".to_string(),
        messages: vec![OpenAiChatMessage { role: "system".to_string(), content: "be brief".to_string() }],
        stream: false,
        max_tokens: None,
    };
    let response = runtime.chat_completion(request).expect("completion");
    assert_eq!(response.choices[0].message.content, "x0x-compute skeleton [gemma-4:27b] be brief");
}

#[test]
fn chat_completion_errors() {
    let mut runtime = SkeletonRuntimeAdapter::new(&config());
    assert!(matches!(
        runtime.chat_completion(chat("missing", "hi", true)),
        Err(ComputeError::ModelNotFound(model)) if model == "missing"
    ));
    let empty = OpenAiChatCompletionRequest {
        model: "gemma-4:27b".to_string(),
        messages: Vec::new(),
        stream: false,
        max_tokens: None,
    };
    assert!(matches!(
        runtime.chat_completion(empty),
        Err(ComputeError::InvalidChatRequest(message)) if message == "messages must not be empty"
    ));
}

#[test]
fn later_model_configuration_wins() {
    let mut config = config();
    config.models.push(ModelConfig {
        id: "gemma-4:27b".to_string(),
        family: "gemma-4b".to_string(),
        context_window_tokens: 1,
        max_output_tokens: 2,
        max_parallel_reservations: 3,
        tags: Vec::new(),
    });
    let runtime = SkeletonRuntimeAdapter::new(&config);
    let models = runtime.local_models();
    assert_eq!(models.len(), 2);
    assert_eq!(models[0].family, "gemma-4b");
    assert_eq!(models[0].total_slots, 3);
    assert_eq!(models[0].available_slots, 3);
    assert!(models[0].tags.is_empty());
    assert_eq!(models[1].tags, vec!["coding".to_string(), "reasoning".to_string()]);
}

#[test]
fn token_estimates_count_words_with_a_floor_of_one() {
    assert_eq!(estimated_tokens(""), 1);
    assert_eq!(estimated_tokens("   "), 1);
    assert_eq!(estimated_tokens("hello trusted mesh"), 3);
    assert_eq!(estimated_tokens(" a\tb\nc  d "), 4);
    assert_eq!(default_requested_slots(), 1);
}

#[test]
fn gateway_model_ids_follow_inventory() {
    let runtime = SkeletonRuntimeAdapter::new(&config());
    let inventory = runtime.local_models();
    let cards = runtime.openai_models();
    let ids: Vec<&str> = inventory.iter().map(|m| m.id.as_str()).collect();
    let card_ids: Vec<&str> = cards.data.iter().map(|c| c.id.as_str()).collect();
    assert_eq!(ids, card_ids);
    assert!(cards.data.iter().all(|c| c.owned_by == "x0x-compute" && c.created == 0));
    for model in &inventory {
        assert_eq!(model.reserved_slots + model.available_slots, model.total_slots);
    }
}

#[test]
fn reservation_at_a_given_time_is_stamped_with_it() {
    let mut runtime = SkeletonRuntimeAdapter::new(&config());
    let reservation = runtime
        .create_reservation_at(reserve("qwen3.5:32b", " bob ", 2), 1_700_000_123)
        .expect("create reservation");

    assert_eq!(reservation.granted_at_unix_secs, 1_700_000_123);
    assert_eq!(reservation.reservation_id, "resv-000001");
    assert_eq!(reservation.consumer, " bob ");
    assert_eq!(reservation.requested_slots, 2);
    assert_eq!(runtime.reservations().len(), 1);
}

#[test]
fn completion_at_a_given_time_is_stamped_with_it() {
    let mut runtime = SkeletonRuntimeAdapter::new(&config());
    let first = runtime
        .chat_completion_at(chat("gemma-4:27b", "one", false), 42)
        .expect("first completion");
    let error = runtime
        .chat_completion_at(chat("gemma-4:27b", "two", true), 43)
        .expect_err("streaming is refused");
    let second = runtime
        .chat_completion_at(chat("gemma-4:27b", "three", false), 44)
        .expect("second completion");

    assert!(matches!(error, ComputeError::UnsupportedFeature(_)));
    assert_eq!(first.created, 42);
    assert_eq!(first.id, "chatcmpl-000001");
    assert_eq!(second.created, 44);
    assert_eq!(second.id, "chatcmpl-000002");
}

#[test]
fn released_id_is_not_found_again_and_not_reused() {
    let mut runtime = SkeletonRuntimeAdapter::new(&config());
    let before = runtime.local_models();
    let first = runtime
        .create_reservation(reserve("gemma-4:27b", "alice", 1))
        .expect("first reservation");
    runtime.release_reservation(&first.reservation_id).expect("release");
    assert_eq!(runtime.local_models(), before);
    assert!(runtime.reservations().is_empty());

    let again = runtime.release_reservation(&first.reservation_id).expect_err("already released");
    assert!(matches!(again, ComputeError::ReservationNotFound(ref id) if id == "resv-000001"));

    let second = runtime
        .create_reservation(reserve("gemma-4:27b", "alice", 1))
        .expect("second reservation");
    assert_eq!(second.reservation_id, "resv-000002");
}
