//! The outbound verification email: a fixed HTML shell around the
//! recipient's name and the six-digit code. Sending it is the transport
//! layer's work, after the response has already been decided.

use vstd::prelude::*;

verus! {

pub assume_specification[ String::push_str ](s: &mut String, other: &str)
    ensures
        final(s)@ == old(s)@ + other@,
;

/// The text before the recipient's name.
pub const VERIFICATION_BODY_OPENING: &'static str = "<!DOCTYPE html>\n<html>\n<head>\n    <meta charset=\"UTF-8\">\n    <meta name=\"viewport\" content=\"width=device-width, initial-scale=1.0\">\n    <title>Email Verification</title>\n    <style>\n        body {\n            font-family: Arial, sans-serif;\n            line-height: 1.6;\n            color: #333333;\n            max-width: 600px;\n            margin: 0 auto;\n            padding: 20px;\n        }\n        .container {\n            background-color: #ffffff;\n            border-radius: 5px;\n            padding: 30px;\n            box-shadow: 0 2px 5px rgba(0,0,0,0.1);\n        }\n        .header {\n            text-align: center;\n            padding-bottom: 20px;\n            border-bottom: 1px solid #eeeeee;\n        }\n        .verification-code {\n            background-color: #f5f5f5;\n            font-size: 32px;\n            font-weight: bold;\n            text-align: center;\n            padding: 20px;\n            margin: 20px 0;\n            letter-spacing: 5px;\n            border-radius: 5px;\n        }\n        .footer {\n            margin-top: 30px;\n            font-size: 12px;\n            color: #666666;\n            text-align: center;\n        }\n    </style>\n</head>\n<body>\n    <div class=\"container\">\n        <div class=\"header\">\n            <h2>Email Verification Required</h2>\n        </div>\n        \n        <p>Hello ";

/// The text between the name and the code.
pub const VERIFICATION_BODY_BEFORE_CODE: &'static str = ",</p>\n        \n        <p>Thank you for creating an account. To ensure the security of your account, please verify your email address using the following verification code:</p>\n        \n        <div class=\"verification-code\">\n            ";

/// The text after the code.
pub const VERIFICATION_BODY_CLOSING: &'static str = "\n        </div>\n        \n        <p><strong>Important:</strong></p>\n        <ul>\n            <li>This code will expire in 10 minutes</li>\n            <li>If you didn't request this code, please ignore this email</li>\n            <li>Do not share this code with anyone</li>\n        </ul>\n        \n        <div class=\"footer\">\n            <p>This is an automated message, please do not reply to this email.</p>\n            <p>&copy; 2024 Your Application Name. All rights reserved.</p>\n        </div>\n    </div>\n</body>\n</html>";

/// The subject and HTML body of the verification email for one recipient
/// and one code.
pub fn get_verification_email_template(name: &str, code: &str) -> (r: (String, String))
    ensures
        r.0@ == "Your Email Verification Code"@,
        r.1@ == VERIFICATION_BODY_OPENING@ + name@ + VERIFICATION_BODY_BEFORE_CODE@ + code@
            + VERIFICATION_BODY_CLOSING@,
{
    let subject = "Your Email Verification Code".to_owned();
    let mut body = VERIFICATION_BODY_OPENING.to_owned();
    body.push_str(name);
    body.push_str(VERIFICATION_BODY_BEFORE_CODE);
    body.push_str(code);
    body.push_str(VERIFICATION_BODY_CLOSING);
    (subject, body)
}

} // verus!
