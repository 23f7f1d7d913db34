use yoroi::cache::{decode_value, error_text, publish_outcome, CacheValue, RedisCache};

#[test]
fn client_opens_on_wellformed_url_only() {
    assert!(RedisCache::new("redis://127.0.0.1:6379".to_string()).is_some());
    assert!(RedisCache::new("not a url".to_string()).is_none());
}

#[test]
fn decode_value_reads_each_answer_shape() {
    assert_eq!(decode_value(&CacheValue::Nil), Ok(None));
    assert_eq!(decode_value(&CacheValue::Int(1)), Ok(Some("1".to_string())));
    assert_eq!(
        decode_value(&CacheValue::Int(-42)),
        Ok(Some("-42".to_string()))
    );
    assert_eq!(
        decode_value(&CacheValue::Data(b"hello world".to_vec())),
        Ok(Some("hello world".to_string()))
    );
    assert_eq!(
        decode_value(&CacheValue::Data(vec![0xff, 0xfe])),
        Err("invalid utf-8".to_string())
    );
    assert_eq!(
        decode_value(&CacheValue::Bulk),
        Err("result is bulk".to_string())
    );
    assert_eq!(
        decode_value(&CacheValue::Status("OK".to_string())),
        Ok(None)
    );
    assert_eq!(decode_value(&CacheValue::Okay), Ok(None));
}

#[test]
fn publish_outcome_reads_each_answer_shape() {
    assert_eq!(
        publish_outcome(&CacheValue::Nil),
        Err("Something went wrong".to_string())
    );
    assert_eq!(publish_outcome(&CacheValue::Int(3)), Ok(()));
    assert_eq!(
        publish_outcome(&CacheValue::Data(b"1".to_vec())),
        Ok(())
    );
    assert_eq!(
        publish_outcome(&CacheValue::Data(vec![0x80])),
        Err("invalid utf-8".to_string())
    );
    assert_eq!(
        publish_outcome(&CacheValue::Bulk),
        Err("result is bulk".to_string())
    );
    assert_eq!(
        publish_outcome(&CacheValue::Status("MOVED".to_string())),
        Err("MOVED".to_string())
    );
    assert_eq!(
        publish_outcome(&CacheValue::Okay),
        Err("Something went wrong".to_string())
    );
}

#[test]
fn error_text_prefers_the_detail_line() {
    assert_eq!(
        error_text(Some("detail".to_string()), Some("CODE".to_string())),
        Some("detail".to_string())
    );
    assert_eq!(
        error_text(None, Some("CODE".to_string())),
        Some("CODE".to_string())
    );
    assert_eq!(error_text(None, None), None);
}
