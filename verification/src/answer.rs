//! The request that answers a callback query sent from an inline
//! keyboard. The answer is displayed to the user as a notification at
//! the top of the chat screen or as an alert.

use vstd::prelude::*;

verus! {

/// An `answerCallbackQuery` request under construction.
#[derive(Debug, Clone, PartialEq)]
pub struct AnswerCallbackQuery {
    /// Identifier of the query being answered.
    pub callback_query_id: String,
    /// Text of the notification; nothing is shown when absent.
    pub text: Option<String>,
    /// Whether to show an alert instead of a notification.
    pub show_alert: bool,
    /// URL to be opened by the user's client.
    pub url: Option<String>,
    /// Maximum client-side cache time for the answer, in seconds.
    pub cache_time: Option<i64>,
}

impl AnswerCallbackQuery {
    /// A fresh answer to the query with the given identifier: no text,
    /// no alert, no URL, no cache time.
    pub fn new(callback_query_id: String) -> (r: AnswerCallbackQuery)
        ensures
            r.callback_query_id == callback_query_id,
            r.text is None,
            r.show_alert == false,
            r.url is None,
            r.cache_time is None,
    {
        AnswerCallbackQuery {
            callback_query_id,
            text: None,
            show_alert: false,
            url: None,
            cache_time: None,
        }
    }

    /// Sets the notification text and changes nothing else.
    pub fn text(&mut self, text: String)
        ensures
            final(self).text == Some(text),
            final(self).callback_query_id == old(self).callback_query_id,
            final(self).show_alert == old(self).show_alert,
            final(self).url == old(self).url,
            final(self).cache_time == old(self).cache_time,
    {
        self.text = Some(text);
    }

    /// Sets whether the answer is shown as an alert and changes nothing
    /// else.
    pub fn show_alert(&mut self, show_alert: bool)
        ensures
            final(self).show_alert == show_alert,
            final(self).callback_query_id == old(self).callback_query_id,
            final(self).text == old(self).text,
            final(self).url == old(self).url,
            final(self).cache_time == old(self).cache_time,
    {
        self.show_alert = show_alert;
    }

    /// Sets the URL to open and changes nothing else.
    pub fn url(&mut self, url: String)
        ensures
            final(self).url == Some(url),
            final(self).callback_query_id == old(self).callback_query_id,
            final(self).text == old(self).text,
            final(self).show_alert == old(self).show_alert,
            final(self).cache_time == old(self).cache_time,
    {
        self.url = Some(url);
    }

    /// Sets the cache time and changes nothing else.
    pub fn cache_time(&mut self, cache_time: i64)
        ensures
            final(self).cache_time == Some(cache_time),
            final(self).callback_query_id == old(self).callback_query_id,
            final(self).text == old(self).text,
            final(self).show_alert == old(self).show_alert,
            final(self).url == old(self).url,
    {
        self.cache_time = Some(cache_time);
    }

    /// The wire name of this request.
    pub fn name(&self) -> (r: &'static str)
        ensures
            r@ == "answerCallbackQuery"@,
    {
        "answerCallbackQuery"
    }
}

} // verus!
