//! The texts that the device and Home Assistant exchange over MQTT.

use vstd::prelude::*;

use crate::text::push_text;

verus! {

/// The topic on which the device says whether it is there.
pub open spec fn availability_topic_text(device_id: Seq<char>) -> Seq<char> {
    "rusty_collars/"@ + device_id + "/availability"@
}

/// The topic on which the device says whether it is there.
pub fn availability_topic(device_id: &str) -> (r: String)
    ensures
        r@ == availability_topic_text(device_id@),
{
    let mut s = "rusty_collars/".to_owned();
    push_text(&mut s, device_id);
    push_text(&mut s, "/availability");
    s
}

/// The topics that the device listens to.
pub open spec fn subscribe_topic_text(device_id: Seq<char>) -> Seq<char> {
    "rusty_collars/"@ + device_id + "/#"@
}

/// The topics that the device listens to.
pub fn subscribe_topic(device_id: &str) -> (r: String)
    ensures
        r@ == subscribe_topic_text(device_id@),
{
    let mut s = "rusty_collars/".to_owned();
    push_text(&mut s, device_id);
    push_text(&mut s, "/#");
    s
}

/// The topic that says whether a preset runs.
pub open spec fn preset_running_topic_text(device_id: Seq<char>) -> Seq<char> {
    "rusty_collars/"@ + device_id + "/preset_running/state"@
}

/// The topic that says whether a preset runs.
pub fn preset_running_topic(device_id: &str) -> (r: String)
    ensures
        r@ == preset_running_topic_text(device_id@),
{
    let mut s = "rusty_collars/".to_owned();
    push_text(&mut s, device_id);
    push_text(&mut s, "/preset_running/state");
    s
}

/// The topic that says how long an action takes.
pub open spec fn action_duration_topic_text(device_id: Seq<char>) -> Seq<char> {
    "rusty_collars/"@ + device_id + "/action_duration/state"@
}

/// The topic that says how long an action takes.
pub fn action_duration_topic(device_id: &str) -> (r: String)
    ensures
        r@ == action_duration_topic_text(device_id@),
{
    let mut s = "rusty_collars/".to_owned();
    push_text(&mut s, device_id);
    push_text(&mut s, "/action_duration/state");
    s
}

/// The topic that says how strong the actions of a collar are.
pub open spec fn intensity_topic_text(device_id: Seq<char>, slug: Seq<char>) -> Seq<char> {
    "rusty_collars/"@ + device_id + "/collar/"@ + slug + "/intensity/state"@
}

/// The topic that says how strong the actions of a collar are.
pub fn intensity_topic(device_id: &str, slug: &str) -> (r: String)
    ensures
        r@ == intensity_topic_text(device_id@, slug@),
{
    let mut s = "rusty_collars/".to_owned();
    push_text(&mut s, device_id);
    push_text(&mut s, "/collar/");
    push_text(&mut s, slug);
    push_text(&mut s, "/intensity/state");
    s
}

/// The topic that says what a collar did.
pub open spec fn event_topic_text(device_id: Seq<char>, slug: Seq<char>) -> Seq<char> {
    "rusty_collars/"@ + device_id + "/collar/"@ + slug + "/event"@
}

/// The topic that says what a collar did.
pub fn event_topic(device_id: &str, slug: &str) -> (r: String)
    ensures
        r@ == event_topic_text(device_id@, slug@),
{
    let mut s = "rusty_collars/".to_owned();
    push_text(&mut s, device_id);
    push_text(&mut s, "/collar/");
    push_text(&mut s, slug);
    push_text(&mut s, "/event");
    s
}

/// What a collar did.
pub open spec fn event_payload_text(mode: Seq<char>, intensity: Seq<char>) -> Seq<char> {
    "{\"event_type\":\""@ + mode + "\",\"intensity\":"@ + intensity + "}"@
}

/// What a collar did.
pub fn event_payload(mode: &str, intensity: &str) -> (r: String)
    ensures
        r@ == event_payload_text(mode@, intensity@),
{
    let mut s = "{\"event_type\":\"".to_owned();
    push_text(&mut s, mode);
    push_text(&mut s, "\",\"intensity\":");
    push_text(&mut s, intensity);
    push_text(&mut s, "}");
    s
}

/// The part of an announcement that names the device.
pub open spec fn device_block_text(device_id: Seq<char>) -> Seq<char> {
    "\"device\":{\"identifiers\":[\""@ + device_id + "\"],\"name\":\"Rusty Collars\",\"model\":\"ESP32\",\"manufacturer\":\"rusty-collars\"}"@
}

/// The part of an announcement that names the device.
pub fn device_block(device_id: &str) -> (r: String)
    ensures
        r@ == device_block_text(device_id@),
{
    let mut s = "\"device\":{\"identifiers\":[\"".to_owned();
    push_text(&mut s, device_id);
    push_text(&mut s, "\"],\"name\":\"Rusty Collars\",\"model\":\"ESP32\",\"manufacturer\":\"rusty-collars\"}");
    s
}

/// The part of an announcement that says how to learn whether the device is there.
pub open spec fn availability_block_text(device_id: Seq<char>) -> Seq<char> {
    "\"availability\":[{\"topic\":\"rusty_collars/"@ + device_id + "/availability\",\"payload_available\":\"online\",\"payload_not_available\":\"offline\"}]"@
}

/// The part of an announcement that says how to learn whether the device is there.
pub fn availability_block(device_id: &str) -> (r: String)
    ensures
        r@ == availability_block_text(device_id@),
{
    let mut s = "\"availability\":[{\"topic\":\"rusty_collars/".to_owned();
    push_text(&mut s, device_id);
    push_text(&mut s, "/availability\",\"payload_available\":\"online\",\"payload_not_available\":\"offline\"}]");
    s
}

/// Where the slider for the intensity of a collar is announced.
pub open spec fn intensity_config_topic_text(device_id: Seq<char>, slug: Seq<char>) -> Seq<char> {
    "homeassistant/number/"@ + device_id + "/"@ + slug + "_intensity/config"@
}

/// Where the slider for the intensity of a collar is announced.
pub fn intensity_config_topic(device_id: &str, slug: &str) -> (r: String)
    ensures
        r@ == intensity_config_topic_text(device_id@, slug@),
{
    let mut s = "homeassistant/number/".to_owned();
    push_text(&mut s, device_id);
    push_text(&mut s, "/");
    push_text(&mut s, slug);
    push_text(&mut s, "_intensity/config");
    s
}

/// The slider for the intensity of a collar.
pub open spec fn intensity_config_text(device: Seq<char>, availability: Seq<char>, name: Seq<char>, device_id: Seq<char>, slug: Seq<char>) -> Seq<char> {
    "{"@ + device + ","@ + availability + ",\"name\":\""@ + name + " Intensity\",\"unique_id\":\""@ + device_id + "_"@ + slug + "_intensity\",\"state_topic\":\"rusty_collars/"@ + device_id + "/collar/"@ + slug + "/intensity/state\",\"command_topic\":\"rusty_collars/"@ + device_id + "/collar/"@ + slug + "/intensity/set\",\"min\":0,\"max\":99,\"step\":1,\"mode\":\"slider\"}"@
}

/// The slider for the intensity of a collar.
pub fn intensity_config(device: &str, availability: &str, name: &str, device_id: &str, slug: &str) -> (r: String)
    ensures
        r@ == intensity_config_text(device@, availability@, name@, device_id@, slug@),
{
    let mut s = "{".to_owned();
    push_text(&mut s, device);
    push_text(&mut s, ",");
    push_text(&mut s, availability);
    push_text(&mut s, ",\"name\":\"");
    push_text(&mut s, name);
    push_text(&mut s, " Intensity\",\"unique_id\":\"");
    push_text(&mut s, device_id);
    push_text(&mut s, "_");
    push_text(&mut s, slug);
    push_text(&mut s, "_intensity\",\"state_topic\":\"rusty_collars/");
    push_text(&mut s, device_id);
    push_text(&mut s, "/collar/");
    push_text(&mut s, slug);
    push_text(&mut s, "/intensity/state\",\"command_topic\":\"rusty_collars/");
    push_text(&mut s, device_id);
    push_text(&mut s, "/collar/");
    push_text(&mut s, slug);
    push_text(&mut s, "/intensity/set\",\"min\":0,\"max\":99,\"step\":1,\"mode\":\"slider\"}");
    s
}

/// Where a button for a collar is announced.
pub open spec fn button_config_topic_text(device_id: Seq<char>, slug: Seq<char>, mode: Seq<char>) -> Seq<char> {
    "homeassistant/button/"@ + device_id + "/"@ + slug + "_"@ + mode + "/config"@
}

/// Where a button for a collar is announced.
pub fn button_config_topic(device_id: &str, slug: &str, mode: &str) -> (r: String)
    ensures
        r@ == button_config_topic_text(device_id@, slug@, mode@),
{
    let mut s = "homeassistant/button/".to_owned();
    push_text(&mut s, device_id);
    push_text(&mut s, "/");
    push_text(&mut s, slug);
    push_text(&mut s, "_");
    push_text(&mut s, mode);
    push_text(&mut s, "/config");
    s
}

/// A button for a collar.
pub open spec fn button_config_text(device: Seq<char>, availability: Seq<char>, name: Seq<char>, display_name: Seq<char>, device_id: Seq<char>, slug: Seq<char>, mode: Seq<char>) -> Seq<char> {
    "{"@ + device + ","@ + availability + ",\"name\":\""@ + name + " "@ + display_name + "\",\"unique_id\":\""@ + device_id + "_"@ + slug + "_"@ + mode + "\",\"command_topic\":\"rusty_collars/"@ + device_id + "/collar/"@ + slug + "/"@ + mode + "/set\",\"payload_press\":\"PRESS\"}"@
}

/// A button for a collar.
pub fn button_config(device: &str, availability: &str, name: &str, display_name: &str, device_id: &str, slug: &str, mode: &str) -> (r: String)
    ensures
        r@ == button_config_text(device@, availability@, name@, display_name@, device_id@, slug@, mode@),
{
    let mut s = "{".to_owned();
    push_text(&mut s, device);
    push_text(&mut s, ",");
    push_text(&mut s, availability);
    push_text(&mut s, ",\"name\":\"");
    push_text(&mut s, name);
    push_text(&mut s, " ");
    push_text(&mut s, display_name);
    push_text(&mut s, "\",\"unique_id\":\"");
    push_text(&mut s, device_id);
    push_text(&mut s, "_");
    push_text(&mut s, slug);
    push_text(&mut s, "_");
    push_text(&mut s, mode);
    push_text(&mut s, "\",\"command_topic\":\"rusty_collars/");
    push_text(&mut s, device_id);
    push_text(&mut s, "/collar/");
    push_text(&mut s, slug);
    push_text(&mut s, "/");
    push_text(&mut s, mode);
    push_text(&mut s, "/set\",\"payload_press\":\"PRESS\"}");
    s
}

/// Where the activity of a collar is announced.
pub open spec fn activity_config_topic_text(device_id: Seq<char>, slug: Seq<char>) -> Seq<char> {
    "homeassistant/event/"@ + device_id + "/"@ + slug + "_activity/config"@
}

/// Where the activity of a collar is announced.
pub fn activity_config_topic(device_id: &str, slug: &str) -> (r: String)
    ensures
        r@ == activity_config_topic_text(device_id@, slug@),
{
    let mut s = "homeassistant/event/".to_owned();
    push_text(&mut s, device_id);
    push_text(&mut s, "/");
    push_text(&mut s, slug);
    push_text(&mut s, "_activity/config");
    s
}

/// The activity of a collar.
pub open spec fn activity_config_text(device: Seq<char>, availability: Seq<char>, name: Seq<char>, device_id: Seq<char>, slug: Seq<char>) -> Seq<char> {
    "{"@ + device + ","@ + availability + ",\"name\":\""@ + name + " Activity\",\"unique_id\":\""@ + device_id + "_"@ + slug + "_activity\",\"state_topic\":\"rusty_collars/"@ + device_id + "/collar/"@ + slug + "/event\",\"event_types\":[\"shock\",\"vibrate\",\"beep\"]}"@
}

/// The activity of a collar.
pub fn activity_config(device: &str, availability: &str, name: &str, device_id: &str, slug: &str) -> (r: String)
    ensures
        r@ == activity_config_text(device@, availability@, name@, device_id@, slug@),
{
    let mut s = "{".to_owned();
    push_text(&mut s, device);
    push_text(&mut s, ",");
    push_text(&mut s, availability);
    push_text(&mut s, ",\"name\":\"");
    push_text(&mut s, name);
    push_text(&mut s, " Activity\",\"unique_id\":\"");
    push_text(&mut s, device_id);
    push_text(&mut s, "_");
    push_text(&mut s, slug);
    push_text(&mut s, "_activity\",\"state_topic\":\"rusty_collars/");
    push_text(&mut s, device_id);
    push_text(&mut s, "/collar/");
    push_text(&mut s, slug);
    push_text(&mut s, "/event\",\"event_types\":[\"shock\",\"vibrate\",\"beep\"]}");
    s
}

/// Where the button for a preset is announced.
pub open spec fn preset_config_topic_text(device_id: Seq<char>, slug: Seq<char>) -> Seq<char> {
    "homeassistant/button/"@ + device_id + "/preset_"@ + slug + "/config"@
}

/// Where the button for a preset is announced.
pub fn preset_config_topic(device_id: &str, slug: &str) -> (r: String)
    ensures
        r@ == preset_config_topic_text(device_id@, slug@),
{
    let mut s = "homeassistant/button/".to_owned();
    push_text(&mut s, device_id);
    push_text(&mut s, "/preset_");
    push_text(&mut s, slug);
    push_text(&mut s, "/config");
    s
}

/// The button for a preset.
pub open spec fn preset_config_text(device: Seq<char>, availability: Seq<char>, name: Seq<char>, device_id: Seq<char>, slug: Seq<char>) -> Seq<char> {
    "{"@ + device + ","@ + availability + ",\"name\":\"Preset: "@ + name + "\",\"unique_id\":\""@ + device_id + "_preset_"@ + slug + "\",\"command_topic\":\"rusty_collars/"@ + device_id + "/preset/"@ + slug + "/set\",\"payload_press\":\"PRESS\"}"@
}

/// The button for a preset.
pub fn preset_config(device: &str, availability: &str, name: &str, device_id: &str, slug: &str) -> (r: String)
    ensures
        r@ == preset_config_text(device@, availability@, name@, device_id@, slug@),
{
    let mut s = "{".to_owned();
    push_text(&mut s, device);
    push_text(&mut s, ",");
    push_text(&mut s, availability);
    push_text(&mut s, ",\"name\":\"Preset: ");
    push_text(&mut s, name);
    push_text(&mut s, "\",\"unique_id\":\"");
    push_text(&mut s, device_id);
    push_text(&mut s, "_preset_");
    push_text(&mut s, slug);
    push_text(&mut s, "\",\"command_topic\":\"rusty_collars/");
    push_text(&mut s, device_id);
    push_text(&mut s, "/preset/");
    push_text(&mut s, slug);
    push_text(&mut s, "/set\",\"payload_press\":\"PRESS\"}");
    s
}

/// Where it is announced how to learn whether a preset runs.
pub open spec fn running_config_topic_text(device_id: Seq<char>) -> Seq<char> {
    "homeassistant/binary_sensor/"@ + device_id + "/preset_running/config"@
}

/// Where it is announced how to learn whether a preset runs.
pub fn running_config_topic(device_id: &str) -> (r: String)
    ensures
        r@ == running_config_topic_text(device_id@),
{
    let mut s = "homeassistant/binary_sensor/".to_owned();
    push_text(&mut s, device_id);
    push_text(&mut s, "/preset_running/config");
    s
}

/// How to learn whether a preset runs.
pub open spec fn running_config_text(device: Seq<char>, availability: Seq<char>, device_id: Seq<char>) -> Seq<char> {
    "{"@ + device + ","@ + availability + ",\"name\":\"Preset Running\",\"unique_id\":\""@ + device_id + "_preset_running\",\"state_topic\":\"rusty_collars/"@ + device_id + "/preset_running/state\",\"payload_on\":\"ON\",\"payload_off\":\"OFF\"}"@
}

/// How to learn whether a preset runs.
pub fn running_config(device: &str, availability: &str, device_id: &str) -> (r: String)
    ensures
        r@ == running_config_text(device@, availability@, device_id@),
{
    let mut s = "{".to_owned();
    push_text(&mut s, device);
    push_text(&mut s, ",");
    push_text(&mut s, availability);
    push_text(&mut s, ",\"name\":\"Preset Running\",\"unique_id\":\"");
    push_text(&mut s, device_id);
    push_text(&mut s, "_preset_running\",\"state_topic\":\"rusty_collars/");
    push_text(&mut s, device_id);
    push_text(&mut s, "/preset_running/state\",\"payload_on\":\"ON\",\"payload_off\":\"OFF\"}");
    s
}

/// Where the slider for the duration of actions is announced.
pub open spec fn duration_config_topic_text(device_id: Seq<char>) -> Seq<char> {
    "homeassistant/number/"@ + device_id + "/action_duration/config"@
}

/// Where the slider for the duration of actions is announced.
pub fn duration_config_topic(device_id: &str) -> (r: String)
    ensures
        r@ == duration_config_topic_text(device_id@),
{
    let mut s = "homeassistant/number/".to_owned();
    push_text(&mut s, device_id);
    push_text(&mut s, "/action_duration/config");
    s
}

/// The slider for the duration of actions.
pub open spec fn duration_config_text(device: Seq<char>, availability: Seq<char>, device_id: Seq<char>) -> Seq<char> {
    "{"@ + device + ","@ + availability + ",\"name\":\"Action Duration\",\"unique_id\":\""@ + device_id + "_action_duration\",\"state_topic\":\"rusty_collars/"@ + device_id + "/action_duration/state\",\"command_topic\":\"rusty_collars/"@ + device_id + "/action_duration/set\",\"min\":100,\"max\":10000,\"step\":100,\"unit_of_measurement\":\"ms\",\"mode\":\"slider\",\"icon\":\"mdi:timer-outline\"}"@
}

/// The slider for the duration of actions.
pub fn duration_config(device: &str, availability: &str, device_id: &str) -> (r: String)
    ensures
        r@ == duration_config_text(device@, availability@, device_id@),
{
    let mut s = "{".to_owned();
    push_text(&mut s, device);
    push_text(&mut s, ",");
    push_text(&mut s, availability);
    push_text(&mut s, ",\"name\":\"Action Duration\",\"unique_id\":\"");
    push_text(&mut s, device_id);
    push_text(&mut s, "_action_duration\",\"state_topic\":\"rusty_collars/");
    push_text(&mut s, device_id);
    push_text(&mut s, "/action_duration/state\",\"command_topic\":\"rusty_collars/");
    push_text(&mut s, device_id);
    push_text(&mut s, "/action_duration/set\",\"min\":100,\"max\":10000,\"step\":100,\"unit_of_measurement\":\"ms\",\"mode\":\"slider\",\"icon\":\"mdi:timer-outline\"}");
    s
}

/// The address of a broker.
pub open spec fn broker_url_text(server: Seq<char>, port: Seq<char>) -> Seq<char> {
    "mqtt://"@ + server + ":"@ + port
}

/// The address of a broker.
pub fn broker_url(server: &str, port: &str) -> (r: String)
    ensures
        r@ == broker_url_text(server@, port@),
{
    let mut s = "mqtt://".to_owned();
    push_text(&mut s, server);
    push_text(&mut s, ":");
    push_text(&mut s, port);
    s
}

// ----- How the texts read -----

/// The topics under which a device publishes and listens.
pub proof fn lemma_topics(d: Seq<char>, slug: Seq<char>)
    ensures
        availability_topic_text(d) == "rusty_collars/"@ + d + "/availability"@,
        subscribe_topic_text(d) == "rusty_collars/"@ + d + "/#"@,
        preset_running_topic_text(d) == "rusty_collars/"@ + d + "/preset_running/state"@,
        action_duration_topic_text(d) == "rusty_collars/"@ + d + "/action_duration/state"@,
        intensity_topic_text(d, slug) == "rusty_collars/"@ + d + "/collar/"@ + slug
            + "/intensity/state"@,
        event_topic_text(d, slug) == "rusty_collars/"@ + d + "/collar/"@ + slug + "/event"@,
{
}

/// The topics under which what a device has is announced.
pub proof fn lemma_announcement_topics(d: Seq<char>, slug: Seq<char>, mode: Seq<char>)
    ensures
        intensity_config_topic_text(d, slug) == "homeassistant/number/"@ + d + "/"@ + slug
            + "_intensity/config"@,
        button_config_topic_text(d, slug, mode) == "homeassistant/button/"@ + d + "/"@ + slug
            + "_"@ + mode + "/config"@,
        activity_config_topic_text(d, slug) == "homeassistant/event/"@ + d + "/"@ + slug
            + "_activity/config"@,
        preset_config_topic_text(d, slug) == "homeassistant/button/"@ + d + "/preset_"@ + slug
            + "/config"@,
        running_config_topic_text(d) == "homeassistant/binary_sensor/"@ + d
            + "/preset_running/config"@,
        duration_config_topic_text(d) == "homeassistant/number/"@ + d
            + "/action_duration/config"@,
{
}

/// What a collar did is told by the mode and the strength, and a broker is reached under its name
/// and port.
pub proof fn lemma_event_and_broker(a: Seq<char>, b: Seq<char>)
    ensures
        event_payload_text(a, b) == "{\"event_type\":\""@ + a + "\",\"intensity\":"@ + b + "}"@,
        broker_url_text(a, b) == "mqtt://"@ + a + ":"@ + b,
{
}

/// Every announcement names the device by its identity, and says on which topic and with which
/// words the device tells whether it is there.
pub proof fn lemma_common_blocks(d: Seq<char>)
    ensures
        device_block_text(d) == "\"device\":{\"identifiers\":[\""@ + d
            + "\"],\"name\":\"Rusty Collars\",\"model\":\"ESP32\",\"manufacturer\":\"rusty-collars\"}"@,
        availability_block_text(d) == "\"availability\":[{\"topic\":\""@
            + availability_topic_text(d)
            + "\",\"payload_available\":\"online\",\"payload_not_available\":\"offline\"}]"@,
{
    reveal_strlit("\"availability\":[{\"topic\":\"rusty_collars/");
    reveal_strlit("\"availability\":[{\"topic\":\"");
    reveal_strlit("rusty_collars/");
    reveal_strlit("/availability");
    reveal_strlit("/availability\",\"payload_available\":\"online\",\"payload_not_available\":\"offline\"}]");
    reveal_strlit("\",\"payload_available\":\"online\",\"payload_not_available\":\"offline\"}]");
    assert("\"availability\":[{\"topic\":\"rusty_collars/"@ =~= "\"availability\":[{\"topic\":\""@
        + "rusty_collars/"@);
    assert("/availability\",\"payload_available\":\"online\",\"payload_not_available\":\"offline\"}]"@
        =~= "/availability"@
        + "\",\"payload_available\":\"online\",\"payload_not_available\":\"offline\"}]"@);
    assert(availability_block_text(d) =~= "\"availability\":[{\"topic\":\""@
        + availability_topic_text(d)
        + "\",\"payload_available\":\"online\",\"payload_not_available\":\"offline\"}]"@);
}

/// The slider of a collar goes from 0 to 99 in steps of one.
pub proof fn lemma_intensity_slider(
    device: Seq<char>,
    availability: Seq<char>,
    name: Seq<char>,
    d: Seq<char>,
    slug: Seq<char>,
)
    ensures
        intensity_config_text(device, availability, name, d, slug) == "{"@ + device + ","@
            + availability + ",\"name\":\""@ + name + " Intensity\",\"unique_id\":\""@ + d + "_"@
            + slug + "_intensity\",\"state_topic\":\"rusty_collars/"@ + d + "/collar/"@ + slug
            + "/intensity/state\",\"command_topic\":\"rusty_collars/"@ + d + "/collar/"@ + slug
            + "/intensity/set\",\"min\":0,\"max\":99,\"step\":1,\"mode\":\"slider\"}"@,
{
}

/// A collar has a button for each mode, and tells of each mode that it carries out.
pub proof fn lemma_collar_controls(
    device: Seq<char>,
    availability: Seq<char>,
    name: Seq<char>,
    title: Seq<char>,
    d: Seq<char>,
    slug: Seq<char>,
    mode: Seq<char>,
)
    ensures
        button_config_text(device, availability, name, title, d, slug, mode) == "{"@ + device
            + ","@ + availability + ",\"name\":\""@ + name + " "@ + title
            + "\",\"unique_id\":\""@ + d + "_"@ + slug + "_"@ + mode
            + "\",\"command_topic\":\"rusty_collars/"@ + d + "/collar/"@ + slug + "/"@ + mode
            + "/set\",\"payload_press\":\"PRESS\"}"@,
        activity_config_text(device, availability, name, d, slug) == "{"@ + device + ","@
            + availability + ",\"name\":\""@ + name + " Activity\",\"unique_id\":\""@ + d + "_"@
            + slug + "_activity\",\"state_topic\":\"rusty_collars/"@ + d + "/collar/"@ + slug
            + "/event\",\"event_types\":[\"shock\",\"vibrate\",\"beep\"]}"@,
{
}

/// A preset has a button, and the device tells whether a preset runs and how long actions take,
/// which a slider sets from 100 to 10000 milliseconds in steps of 100.
pub proof fn lemma_device_controls(
    device: Seq<char>,
    availability: Seq<char>,
    name: Seq<char>,
    d: Seq<char>,
    slug: Seq<char>,
)
    ensures
        preset_config_text(device, availability, name, d, slug) == "{"@ + device + ","@
            + availability + ",\"name\":\"Preset: "@ + name + "\",\"unique_id\":\""@ + d
            + "_preset_"@ + slug + "\",\"command_topic\":\"rusty_collars/"@ + d + "/preset/"@
            + slug + "/set\",\"payload_press\":\"PRESS\"}"@,
        running_config_text(device, availability, d) == "{"@ + device + ","@ + availability
            + ",\"name\":\"Preset Running\",\"unique_id\":\""@ + d
            + "_preset_running\",\"state_topic\":\"rusty_collars/"@ + d
            + "/preset_running/state\",\"payload_on\":\"ON\",\"payload_off\":\"OFF\"}"@,
        duration_config_text(device, availability, d) == "{"@ + device + ","@ + availability
            + ",\"name\":\"Action Duration\",\"unique_id\":\""@ + d
            + "_action_duration\",\"state_topic\":\"rusty_collars/"@ + d
            + "/action_duration/state\",\"command_topic\":\"rusty_collars/"@ + d
            + "/action_duration/set\",\"min\":100,\"max\":10000,\"step\":100,\"unit_of_measurement\":\"ms\",\"mode\":\"slider\",\"icon\":\"mdi:timer-outline\"}"@,
{
}

} // verus!
