//! What the commands do with the answers of the API.
use vstd::prelude::*;

use crate::models::{
    parse_shelves, shelf_names, user_shelves_upto, xml_document_nodes, xml_error_debug_text,
    UserShelf,
};

verus! {

/// The user's shelves, read from the answer to the shelf-list request: the request's
/// error as it came, or the parsed shelves, or `Error: ` and the XML parser's debug text
/// when the answer is not well-formed XML.
pub fn get_user_shelves(shelves_response: Result<String, String>) -> (r: Result<Vec<UserShelf>, String>)
    ensures
        match shelves_response {
            Err(e) => r matches Err(message) && message@ == e@,
            Ok(xml) => match xml_document_nodes(xml@) {
                Some(nodes) => r matches Ok(shelves) && shelf_names(shelves@) == user_shelves_upto(
                    nodes,
                    nodes.len() as int,
                ),
                None => r matches Err(message) && message@ == "Error: "@ + xml_error_debug_text(
                    xml@,
                ),
            },
        },
{
    match shelves_response {
        Ok(xml) => match parse_shelves(xml.as_str()) {
            Ok(shelves) => Ok(shelves),
            Err(err) => {
                let mut message = String::from_str("Error: ");
                message.append(err.debug.as_str());
                Err(message)
            },
        },
        Err(err) => Err(err),
    }
}

} // verus!
